use better_hand::aggregate::Equity;
use better_hand::combos::card_pairs;
use better_hand::driver::{contains_card, deck_without};
use better_hand::output::{cell_color, grid_string, pretty_print};
use better_hand::parse::{all_distinct, is_exit, parse_cards};
use better_hand::types::{Card, InputError, PokerHand, Suited};

fn c(tok: &str) -> Card {
    let cards = parse_cards(&tok.as_bytes().to_vec()).unwrap();
    assert_eq!(cards.len(), 1);
    cards[0]
}

#[test]
fn parse_single_cards() {
    assert_eq!(c("As"), Card { rank: 12, suit: 0 });
    assert_eq!(c("Th"), Card { rank: 8, suit: 2 });
    assert_eq!(c("2c"), Card { rank: 0, suit: 1 });
    assert_eq!(c("9d"), Card { rank: 7, suit: 3 });
}

#[test]
fn parse_many_cards() {
    let cards = parse_cards(&"AhAsKc".as_bytes().to_vec()).unwrap();
    assert_eq!(cards.len(), 3);
    assert_eq!(cards[0], Card { rank: 12, suit: 2 });
    assert_eq!(cards[1], Card { rank: 12, suit: 0 });
    assert_eq!(cards[2], Card { rank: 11, suit: 1 });
}

#[test]
fn parse_empty_is_empty() {
    assert_eq!(parse_cards(&Vec::new()).unwrap().len(), 0);
}

#[test]
fn parse_rejects_bad_rank() {
    assert_eq!(
        parse_cards(&"Xs".as_bytes().to_vec()),
        Err(InputError::MalformedCardToken)
    );
}

#[test]
fn parse_rejects_bad_suit() {
    assert_eq!(
        parse_cards(&"Ax".as_bytes().to_vec()),
        Err(InputError::MalformedCardToken)
    );
}

#[test]
fn parse_rejects_odd_length() {
    assert_eq!(
        parse_cards(&"AsK".as_bytes().to_vec()),
        Err(InputError::MalformedCardToken)
    );
}

#[test]
fn parse_rejects_ten_as_digits() {
    assert_eq!(
        parse_cards(&"10h".as_bytes().to_vec()),
        Err(InputError::MalformedCardToken)
    );
}

#[test]
fn exit_word_either_case() {
    assert!(is_exit(&"exit".as_bytes().to_vec()));
    assert!(is_exit(&"EXIT".as_bytes().to_vec()));
    assert!(is_exit(&"Exit".as_bytes().to_vec()));
    assert!(!is_exit(&"quit".as_bytes().to_vec()));
    assert!(!is_exit(&"exit ".as_bytes().to_vec()));
}

#[test]
fn distinct_check() {
    let ok = parse_cards(&"AhAsKc".as_bytes().to_vec()).unwrap();
    assert!(all_distinct(&ok));
    let dup = parse_cards(&"AhAsAh".as_bytes().to_vec()).unwrap();
    assert!(!all_distinct(&dup));
}

#[test]
fn category_order_invariance() {
    let x = c("Ah");
    let y = c("Kd");
    assert_eq!(PokerHand::new((x, y)), PokerHand::new((y, x)));
    let p = c("7c");
    let q = c("7s");
    assert_eq!(PokerHand::new((p, q)), PokerHand::new((q, p)));
}

#[test]
fn category_fields() {
    let h = PokerHand::new((c("Ks"), c("As")));
    assert_eq!(
        h,
        PokerHand {
            a: 12,
            b: 11,
            s: Suited::On
        }
    );
    let o = PokerHand::new((c("2c"), c("7d")));
    assert_eq!(
        o,
        PokerHand {
            a: 5,
            b: 0,
            s: Suited::Off
        }
    );
}

#[test]
fn category_labels() {
    assert_eq!(PokerHand::new((c("As"), c("Ks"))).to_string(), "AKs");
    assert_eq!(PokerHand::new((c("2c"), c("7d"))).to_string(), "72o");
    assert_eq!(PokerHand::new((c("Ah"), c("Ad"))).to_string(), "AAo");
}

#[test]
fn grid_positions() {
    assert_eq!(PokerHand::new((c("Ah"), c("Ad"))).grid_pos(), (0, 0));
    assert_eq!(PokerHand::new((c("As"), c("Ks"))).grid_pos(), (1, 0));
    assert_eq!(PokerHand::new((c("Ah"), c("Kd"))).grid_pos(), (0, 1));
    assert_eq!(PokerHand::new((c("2c"), c("2d"))).grid_pos(), (12, 12));
}

#[test]
fn default_category() {
    assert_eq!(
        PokerHand::default(),
        PokerHand {
            a: 12,
            b: 12,
            s: Suited::On
        }
    );
}

#[test]
fn pair_enumeration_exact() {
    let cards = parse_cards(&"AhKdQc2s".as_bytes().to_vec()).unwrap();
    let pairs = card_pairs(&cards);
    assert_eq!(pairs.len(), 6);
    assert_eq!(pairs[0], (cards[0], cards[1]));
    assert_eq!(pairs[1], (cards[0], cards[2]));
    assert_eq!(pairs[2], (cards[0], cards[3]));
    assert_eq!(pairs[3], (cards[1], cards[2]));
    assert_eq!(pairs[4], (cards[1], cards[3]));
    assert_eq!(pairs[5], (cards[2], cards[3]));
}

#[test]
fn deck_removal_size() {
    let hand = parse_cards(&"AsAh".as_bytes().to_vec()).unwrap();
    let board = parse_cards(&"AdKc2h2d2s".as_bytes().to_vec()).unwrap();
    let deck = deck_without(&hand, &board);
    assert_eq!(deck.len(), 45);
    for card in hand.iter().chain(board.iter()) {
        assert!(!contains_card(&deck, *card));
    }
}

#[test]
fn deck_removal_absent_card_is_noop() {
    let hand = parse_cards(&"AsAs".as_bytes().to_vec()).unwrap();
    let board = Vec::new();
    let deck = deck_without(&hand, &board);
    assert_eq!(deck.len(), 51);
}

#[test]
fn colors_follow_thresholds() {
    assert_eq!(cell_color(0, 0), 11);
    assert_eq!(cell_color(1, 2), 4);
    assert_eq!(cell_color(1, 3), 7);
    assert_eq!(cell_color(32, 100), 1);
    assert_eq!(cell_color(0, 990), 1);
}

#[test]
fn cell_text_rendering() {
    let h = PokerHand::new((c("As"), c("Ks")));
    assert_eq!(grid_string(&h, 0, 0), "Not\nPoss");
    assert_eq!(grid_string(&h, 1, 3), "AKs:\n0.33");
    assert_eq!(grid_string(&h, 1, 2), "AKs:\n0.50");
    assert_eq!(grid_string(&h, 3, 3), "AKs:\n1.00");
    assert_eq!(grid_string(&h, 0, 7), "AKs:\n0.00");
}

#[test]
fn grid_construction() {
    let win = vec![0u64; 169];
    let mut total = vec![0u64; 169];
    total[0] = 4;
    let eq = Equity { win, total };
    let grid = pretty_print(&eq);
    assert_eq!(grid.len(), 13);
    for row in grid.iter() {
        assert_eq!(row.len(), 13);
    }
    assert_eq!(grid[0][0].hand.to_string(), "AAo");
    assert_eq!(grid[0][0].total, 4);
    assert_eq!(grid[0][0].text, "AAo:\n0.00");
    assert_eq!(grid[0][1].total, 0);
    assert_eq!(grid[0][1].text, "Not\nPoss");
    assert_eq!(grid[0][1].color, 11);
    assert_eq!(grid[1][0].hand.to_string(), "AKs");
    assert_eq!(grid[0][1].hand.to_string(), "AKo");
}
