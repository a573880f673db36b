//! Exhaustive Texas Hold'em equity analysis against the full range of opponent
//! starting hands: card and deck model, combination enumeration, strength
//! comparison through an external evaluator, canonical starting-hand
//! categories, outcome aggregation, and grid construction.

pub mod aggregate;
pub mod combos;
pub mod driver;
pub mod oracle;
pub mod output;
pub mod parse;
pub mod session;
pub mod types;
