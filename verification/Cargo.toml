[package]
name = "better_hand"
version = "0.1.0"
edition = "2021"

[dependencies]
rs_poker = "=1.0.0"
clap = "=4.6.7"
dialoguer = "=0.12.0"
prettytable-rs = "=0.10.0"
