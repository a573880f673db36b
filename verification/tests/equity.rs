use better_hand::aggregate::Equity;
use better_hand::driver::{deck_without, river_calc, run_query, turn_calc};
use better_hand::parse::parse_cards;
use better_hand::types::{Card, InputError, PokerHand};

fn cards(toks: &str) -> Vec<Card> {
    parse_cards(&toks.as_bytes().to_vec()).unwrap()
}

fn cell(eq: &Equity, two: &str) -> (u64, u64) {
    let pair = cards(two);
    let h = PokerHand::new((pair[0], pair[1]));
    let (r, col) = h.grid_pos();
    let i = r as usize * 13 + col as usize;
    (eq.win[i], eq.total[i])
}

fn sum_totals(eq: &Equity) -> u64 {
    eq.total.iter().sum()
}

#[test]
fn river_full_house_board() {
    // Hero holds aces full of deuces; only the one remaining deuce makes
    // quads against it.
    let hand = cards("AsAh");
    let board = cards("AdKc2h2d2s");
    let deck = deck_without(&hand, &board);
    assert_eq!(deck.len(), 45);
    let eq = river_calc(hand, board, deck);

    // Every evaluated scenario lands in exactly one category.
    assert_eq!(sum_totals(&eq), 990);
    for i in 0..169 {
        assert!(eq.win[i] <= eq.total[i]);
    }

    // Structurally impossible categories: the pair of aces and the pair of
    // deuces cannot be dealt any more.
    assert_eq!(cell(&eq, "AhAd"), (0, 0));
    assert_eq!(cell(&eq, "2h2d"), (0, 0));

    // Any villain hand holding the club deuce makes quad deuces and wins;
    // no other hand beats the hero.
    let (w32o, t32o) = cell(&eq, "3h2c");
    assert_eq!(t32o, 3);
    assert_eq!(w32o, 3);
    let (w32s, t32s) = cell(&eq, "3c2c");
    assert_eq!(t32s, 1);
    assert_eq!(w32s, 1);
    let (wkk, tkk) = cell(&eq, "KhKd");
    assert_eq!(tkk, 3);
    assert_eq!(wkk, 0);
    let (wa2, ta2) = cell(&eq, "Ac2c");
    assert_eq!(ta2, 1);
    assert_eq!(wa2, 1);

    // Every category that holds no deuce reports zero villain wins.
    for i in 0..13u8 {
        for j in 0..13u8 {
            let idx = (i as usize) * 13 + j as usize;
            let ranks = (12 - i.min(j), 12 - i.max(j));
            if ranks.0 != 0 && ranks.1 != 0 {
                assert_eq!(eq.win[idx], 0);
            }
        }
    }
}

#[test]
fn river_royal_flush_board() {
    // The board itself is a royal flush: every villain at best ties, and a
    // tie is not a villain win.
    let hand = cards("2c7d");
    let board = cards("AsKsQsJsTs");
    let deck = deck_without(&hand, &board);
    let eq = river_calc(hand, board, deck);
    assert_eq!(sum_totals(&eq), 990);
    for i in 0..169 {
        assert_eq!(eq.win[i], 0);
    }
    // The two remaining high spades still tie rather than win.
    let (w98, t98) = cell(&eq, "9s8s");
    assert_eq!(t98, 4);
    assert_eq!(w98, 0);
}

#[test]
fn river_mixed_outcomes() {
    // Hero's two pair loses to some hands and beats others, so both counts
    // move.
    let hand = cards("2h3h");
    let board = cards("AsAdKcKd7s");
    let deck = deck_without(&hand, &board);
    let eq = river_calc(hand, board, deck);
    assert_eq!(sum_totals(&eq), 990);
    // A villain ace makes aces full over the board's two pair: the two live
    // aces and three live sevens give four offsuit combinations.
    let (wa7, ta7) = cell(&eq, "Ah7c");
    assert_eq!(ta7, 4);
    assert_eq!(wa7, 4);
    // A nine kicker outdraws the hero's seven on the board's two pair.
    let (w94, t94) = cell(&eq, "9c4d");
    assert!(t94 > 0);
    assert_eq!(w94, t94);
    // Two low rags only replay the board and tie, and ties are not villain
    // wins.
    let (w64, t64) = cell(&eq, "6c4d");
    assert!(t64 > 0);
    assert_eq!(w64, 0);
}

#[test]
fn turn_scenario_count() {
    let hand = cards("AsAh");
    let board = cards("AdKc2h2d");
    let deck = deck_without(&hand, &board);
    assert_eq!(deck.len(), 46);
    let eq = turn_calc(hand, board, deck);
    // 46 one-card completions, each evaluated over C(45, 2) villain hands.
    assert_eq!(sum_totals(&eq), 46 * 990);
    for i in 0..169 {
        assert!(eq.win[i] <= eq.total[i]);
    }
}

#[test]
fn flop_scenario_count() {
    let hand = cards("AsAh");
    let board = cards("AdKc2h");
    let deck = deck_without(&hand, &board);
    assert_eq!(deck.len(), 47);
    let eq = better_hand::driver::flop_calc(hand, board, deck);
    // C(47, 2) = 1081 two-card completions, each over C(45, 2) villain hands.
    assert_eq!(sum_totals(&eq), 1081 * 990);
}

#[test]
fn evaluation_is_idempotent() {
    let hand = cards("2c7d");
    let board = cards("AsKsQsJsTs");
    let deck = deck_without(&hand, &board);
    let first = river_calc(hand.clone(), board.clone(), deck.clone());
    let second = river_calc(hand, board, deck);
    assert_eq!(first.win, second.win);
    assert_eq!(first.total, second.total);
}

#[test]
fn calc_dispatches_by_board_length() {
    let hand = cards("AsAh");
    let board = cards("AdKc2h2d2s");
    let deck = deck_without(&hand, &board);
    let via_calc = better_hand::driver::calc(hand.clone(), board.clone(), deck.clone());
    let direct = river_calc(hand, board, deck);
    assert_eq!(via_calc.win, direct.win);
    assert_eq!(via_calc.total, direct.total);
}

#[test]
fn query_happy_path() {
    let eq = run_query(
        &"AsAh".as_bytes().to_vec(),
        &"AdKc2h2d2s".as_bytes().to_vec(),
    )
    .unwrap();
    assert_eq!(sum_totals(&eq), 990);
}

#[test]
fn evaluate_cards_matches_query() {
    let hand = cards("AsAh");
    let board = cards("AdKc2h2d2s");
    let direct = better_hand::driver::evaluate_cards(hand, board).unwrap();
    let via_query = run_query(
        &"AsAh".as_bytes().to_vec(),
        &"AdKc2h2d2s".as_bytes().to_vec(),
    )
    .unwrap();
    assert_eq!(direct.win, via_query.win);
    assert_eq!(direct.total, via_query.total);
}

#[test]
fn evaluate_cards_rejects_invalid_card() {
    let mut hand = cards("AsAh");
    hand[1] = Card { rank: 13, suit: 0 };
    let board = cards("AdKc2h2d2s");
    assert!(matches!(
        better_hand::driver::evaluate_cards(hand, board),
        Err(InputError::MalformedCardToken)
    ));
}

#[test]
fn evaluate_cards_rejects_duplicates() {
    let hand = cards("AsAh");
    let board = cards("AsKc2h2d2s");
    assert!(matches!(
        better_hand::driver::evaluate_cards(hand, board),
        Err(InputError::DuplicateCard)
    ));
}

#[test]
fn query_rejects_malformed_board() {
    assert!(matches!(
        run_query(&"AsAh".as_bytes().to_vec(), &"AdKc2h2d2".as_bytes().to_vec()),
        Err(InputError::MalformedCardToken)
    ));
}

#[test]
fn query_rejects_short_board() {
    assert!(matches!(
        run_query(&"AsAh".as_bytes().to_vec(), &"AdKc".as_bytes().to_vec()),
        Err(InputError::WrongBoardLength)
    ));
}

#[test]
fn query_rejects_long_board() {
    assert!(matches!(
        run_query(
            &"AsAh".as_bytes().to_vec(),
            &"AdKc2h2d2s3c".as_bytes().to_vec()
        ),
        Err(InputError::WrongBoardLength)
    ));
}

#[test]
fn query_rejects_wrong_hand_length() {
    assert!(matches!(
        run_query(
            &"AsAhKd".as_bytes().to_vec(),
            &"AdKc2h2d2s".as_bytes().to_vec()
        ),
        Err(InputError::WrongHandLength)
    ));
}

#[test]
fn query_rejects_duplicates() {
    assert!(matches!(
        run_query(&"AsAh".as_bytes().to_vec(), &"AsKc2h2d2s".as_bytes().to_vec()),
        Err(InputError::DuplicateCard)
    ));
}
