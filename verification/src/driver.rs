//! The equity evaluator: deck construction after card removal, exhaustive
//! enumeration of board completions and villain hands street by street, and
//! strength comparison of every resulting scenario.

use vstd::prelude::*;
use crate::types::{Beats, Card, InputError, cards_valid};
use crate::combos::{all_pairs, card_pairs, distinct_seq, lemma_all_pairs_len, lemma_enumeration_correct, lemma_pairs_upto_valid};
use crate::parse::{all_distinct, lemma_parse_valid, parse_cards, spec_parse_cards};
use crate::oracle::{first_outranks_second, outranks};
use crate::aggregate::{Equity, lemma_aggregation_deterministic, outcomes_valid, prob_calc};

verus! {

/// The 52-card universe in a fixed order: rank-major, suit-minor.
pub open spec fn full_deck() -> Seq<Card> {
    Seq::new(52, |i: int| Card { rank: (i / 4) as u8, suit: (i % 4) as u8 })
}

/// `s` with every card of `hand` or `board` left out.
pub open spec fn minus(s: Seq<Card>, hand: Seq<Card>, board: Seq<Card>) -> Seq<Card>
    decreases s.len(),
{
    if s.len() == 0 {
        Seq::empty()
    } else {
        minus(s.drop_last(), hand, board) + if hand.contains(s.last()) || board.contains(
            s.last(),
        ) {
            Seq::<Card>::empty()
        } else {
            seq![s.last()]
        }
    }
}

/// Whether `v` holds the card `c`.
pub fn contains_card(v: &Vec<Card>, c: Card) -> (r: bool)
    ensures
        r == v@.contains(c),
{
    let mut i: usize = 0;
    while i < v.len()
        invariant
            i <= v@.len(),
            forall|k: int| 0 <= k < i ==> v@[k] != c,
        decreases v@.len() - i,
    {
        if v[i] == c {
            return true;
        }
        i += 1;
    }
    false
}

/// The deck that remains once the hero's hole cards and the board are
/// removed from the full 52-card universe.
pub fn deck_without(hand: &Vec<Card>, board: &Vec<Card>) -> (r: Vec<Card>)
    ensures
        r@ == minus(full_deck(), hand@, board@),
{
    let mut r: Vec<Card> = Vec::new();
    let mut i: usize = 0;
    while i < 52
        invariant
            i <= 52,
            r@ == minus(full_deck().take(i as int), hand@, board@),
        decreases 52 - i,
    {
        let c = Card { rank: (i / 4) as u8, suit: (i % 4) as u8 };
        proof {
            assert(full_deck().take(i as int + 1).drop_last() =~= full_deck().take(i as int));
            assert(full_deck()[i as int] == c);
            assert(full_deck().take(i as int + 1).last() == c);
        }
        if !contains_card(hand, c) && !contains_card(board, c) {
            r.push(c);
            assert(r@ =~= minus(full_deck().take(i as int), hand@, board@) + seq![c]);
        } else {
            assert(r@ =~= minus(full_deck().take(i as int), hand@, board@) + Seq::<Card>::empty());
        }
        i += 1;
    }
    assert(full_deck().take(52) =~= full_deck());
    r
}

/// Every card that removal leaves in place is a card of `s` that lies in
/// neither removed collection; the remaining deck is valid whenever `s` is.
pub proof fn lemma_minus_characterized(s: Seq<Card>, hand: Seq<Card>, board: Seq<Card>)
    ensures
        forall|k: int| #![trigger minus(s, hand, board)[k]] 0 <= k < minus(s, hand, board).len()
            ==> s.contains(minus(s, hand, board)[k]) && !hand.contains(minus(s, hand, board)[k])
                && !board.contains(minus(s, hand, board)[k]),
    decreases s.len(),
{
    if s.len() > 0 {
        lemma_minus_characterized(s.drop_last(), hand, board);
        let p = minus(s.drop_last(), hand, board);
        assert forall|k: int| #![trigger minus(s, hand, board)[k]] 0 <= k < minus(
            s,
            hand,
            board,
        ).len() implies s.contains(minus(s, hand, board)[k]) && !hand.contains(
            minus(s, hand, board)[k],
        ) && !board.contains(minus(s, hand, board)[k]) by {
            if k < p.len() {
                assert(minus(s, hand, board)[k] == p[k]);
                let a = choose|a: int| 0 <= a < s.drop_last().len() && #[trigger] s.drop_last()[a]
                    == p[k];
                assert(s[a] == p[k]);
                assert(s.contains(s[a]));
            } else {
                assert(minus(s, hand, board)[k] == s.last());
                assert(s.contains(s.last()));
            }
        }
    }
}

/// Concatenation order does not affect distinctness.
pub proof fn lemma_distinct_swap(a: Seq<Card>, b: Seq<Card>)
    requires
        distinct_seq(a + b),
    ensures
        distinct_seq(b + a),
{
    let al = a.len() as int;
    let bl = b.len() as int;
    assert forall|k1: int, k2: int| 0 <= k1 < k2 < (b + a).len() implies (b + a)[k1] != (b
        + a)[k2] by {
        if k2 < bl {
            assert((b + a)[k1] == (a + b)[al + k1] && (b + a)[k2] == (a + b)[al + k2]);
        } else if k1 < bl {
            assert((b + a)[k1] == (a + b)[al + k1] && (b + a)[k2] == (a + b)[k2 - bl]);
        } else {
            assert((b + a)[k1] == (a + b)[k1 - bl] && (b + a)[k2] == (a + b)[k2 - bl]);
        }
    }
}

/// The 52-card universe repeats no card.
pub proof fn lemma_full_deck_distinct()
    ensures
        distinct_seq(full_deck()),
{
    assert forall|k1: int, k2: int| 0 <= k1 < k2 < full_deck().len() implies full_deck()[k1]
        != full_deck()[k2] by {
        assert(full_deck()[k1] == Card { rank: (k1 / 4) as u8, suit: (k1 % 4) as u8 });
        assert(full_deck()[k2] == Card { rank: (k2 / 4) as u8, suit: (k2 % 4) as u8 });
        if full_deck()[k1] == full_deck()[k2] {
            assert(k1 / 4 == k2 / 4 && k1 % 4 == k2 % 4);
            assert(k1 == 4 * (k1 / 4) + k1 % 4);
            assert(k2 == 4 * (k2 / 4) + k2 % 4);
            assert(false);
        }
    }
}

/// Removal from a distinct deck leaves a distinct deck.
pub proof fn lemma_minus_distinct(s: Seq<Card>, hand: Seq<Card>, board: Seq<Card>)
    requires
        distinct_seq(s),
    ensures
        distinct_seq(minus(s, hand, board)),
    decreases s.len(),
{
    if s.len() > 0 {
        assert forall|k1: int, k2: int| 0 <= k1 < k2 < s.drop_last().len() implies s.drop_last()[k1]
            != s.drop_last()[k2] by {
            assert(s.drop_last()[k1] == s[k1] && s.drop_last()[k2] == s[k2]);
        }
        lemma_minus_distinct(s.drop_last(), hand, board);
        lemma_minus_characterized(s.drop_last(), hand, board);
        let p = minus(s.drop_last(), hand, board);
        assert forall|k1: int, k2: int| 0 <= k1 < k2 < minus(s, hand, board).len() implies minus(
            s,
            hand,
            board,
        )[k1] != minus(s, hand, board)[k2] by {
            if k2 < p.len() {
                assert(minus(s, hand, board)[k1] == p[k1] && minus(s, hand, board)[k2] == p[k2]);
            } else {
                assert(minus(s, hand, board)[k1] == p[k1] && minus(s, hand, board)[k2] == s.last());
                let a = choose|a: int| 0 <= a < s.drop_last().len() && #[trigger] s.drop_last()[a]
                    == p[k1];
                assert(s[a] == p[k1]);
                assert(s[a] != s.last());
            }
        }
    }
}

/// Dropping one position from a distinct sequence keeps it distinct.
pub proof fn lemma_remove_distinct(s: Seq<Card>, i: int)
    requires
        distinct_seq(s),
        0 <= i < s.len(),
    ensures
        distinct_seq(s.remove(i)),
{
    assert forall|k1: int, k2: int| 0 <= k1 < k2 < s.remove(i).len() implies s.remove(i)[k1]
        != s.remove(i)[k2] by {
        if k1 < i {
            assert(s.remove(i)[k1] == s[k1]);
        } else {
            assert(s.remove(i)[k1] == s[k1 + 1]);
        }
        if k2 < i {
            assert(s.remove(i)[k2] == s[k2]);
        } else {
            assert(s.remove(i)[k2] == s[k2 + 1]);
        }
    }
}

/// A card in neither collection can be appended to the first without
/// breaking the distinctness of the pair.
pub proof fn lemma_insert_card_distinct(board: Seq<Card>, hero: Seq<Card>, c: Card)
    requires
        distinct_seq(board + hero),
        !board.contains(c),
        !hero.contains(c),
    ensures
        distinct_seq(board.push(c) + hero),
{
    let b = board.len() as int;
    let grown = board.push(c) + hero;
    assert forall|k1: int, k2: int| 0 <= k1 < k2 < grown.len() implies grown[k1] != grown[k2] by {
        if k2 < b {
            assert(grown[k1] == (board + hero)[k1] && grown[k2] == (board + hero)[k2]);
        } else if k2 == b {
            assert(grown[k1] == board[k1] && grown[k2] == c);
            if board[k1] == c {
                assert(board.contains(c));
            }
        } else if k1 < b {
            assert(grown[k1] == (board + hero)[k1] && grown[k2] == (board + hero)[k2 - 1]);
        } else if k1 == b {
            assert(grown[k1] == c && grown[k2] == hero[k2 - b - 1]);
            if hero[k2 - b - 1] == c {
                assert(hero.contains(c));
            }
        } else {
            assert(grown[k1] == (board + hero)[k1 - 1] && grown[k2] == (board + hero)[k2 - 1]);
        }
    }
}

/// One evaluated scenario against the villain hole cards `v` on the given
/// completed board: the villain wins exactly when the villain's seven cards
/// strictly outrank the hero's.
pub open spec fn beats_of(hero: Seq<Card>, board: Seq<Card>, v: (Card, Card)) -> Beats {
    Beats { hand: v, villain_wins: outranks(board + seq![v.0, v.1], board + hero) }
}

/// The river scenarios: one for each villain hand drawn from the remaining
/// deck, against the fixed five-card board.
pub open spec fn river_outcomes(hero: Seq<Card>, board: Seq<Card>, deck: Seq<Card>) -> Seq<Beats> {
    all_pairs(deck).map_values(|v: (Card, Card)| beats_of(hero, board, v))
}

/// A copy of a card vector.
pub(crate) fn copy_cards(v: &Vec<Card>) -> (r: Vec<Card>)
    ensures
        r@ == v@,
{
    let mut r: Vec<Card> = Vec::new();
    let mut i: usize = 0;
    while i < v.len()
        invariant
            i <= v@.len(),
            r@ == v@.take(i as int),
        decreases v@.len() - i,
    {
        r.push(v[i]);
        assert(r@ =~= v@.take(i as int + 1));
        i += 1;
    }
    assert(v@.take(v@.len() as int) =~= v@);
    r
}

/// The villain hands that one board admits: each two distinct valid cards,
/// neither on the board.
pub open spec fn enemy_ok(board: Seq<Card>, enemy: Seq<(Card, Card)>) -> bool {
    forall|k: int| #![trigger enemy[k]] 0 <= k < enemy.len() ==> enemy[k].0.valid()
        && enemy[k].1.valid() && enemy[k].0 != enemy[k].1 && !board.contains(enemy[k].0)
        && !board.contains(enemy[k].1)
}

/// Compare every enumerated villain hand against the hero on one fixed
/// five-card board, recording one scenario per hand.
pub fn hand_beats(hero: &Vec<Card>, board: &Vec<Card>, enemy: &Vec<(Card, Card)>) -> (r: Vec<
    Beats,
>)
    requires
        cards_valid(hero@),
        cards_valid(board@),
        hero@.len() == 2,
        board@.len() == 5,
        distinct_seq(board@ + hero@),
        enemy_ok(board@, enemy@),
    ensures
        r@ == enemy@.map_values(|v: (Card, Card)| beats_of(hero@, board@, v)),
{
    let mut hero7 = copy_cards(board);
    let mut hero_hole = copy_cards(hero);
    hero7.append(&mut hero_hole);
    proof {
        assert forall|k: int| 0 <= k < hero7@.len() implies #[trigger] hero7@[k].valid() by {
            if k < 5 {
                assert(hero7@[k] == board@[k]);
            } else {
                assert(hero7@[k] == hero@[k - 5]);
            }
        }
    }
    let mut r: Vec<Beats> = Vec::new();
    let mut i: usize = 0;
    while i < enemy.len()
        invariant
            i <= enemy@.len(),
            cards_valid(hero@),
            cards_valid(board@),
            hero@.len() == 2,
            board@.len() == 5,
            distinct_seq(board@ + hero@),
            enemy_ok(board@, enemy@),
            hero7@ == board@ + hero@,
            cards_valid(hero7@),
            r@.len() == i,
            forall|k: int| #![trigger r@[k]] 0 <= k < i ==> r@[k] == beats_of(
                hero@,
                board@,
                enemy@[k],
            ),
        decreases enemy@.len() - i,
    {
        let v = enemy[i];
        let mut v7 = copy_cards(board);
        let mut hole: Vec<Card> = Vec::new();
        hole.push(v.0);
        hole.push(v.1);
        assert(hole@ =~= seq![v.0, v.1]);
        v7.append(&mut hole);
        proof {
            assert(v7@ == board@ + seq![v.0, v.1]);
            assert forall|k: int| 0 <= k < v7@.len() implies #[trigger] v7@[k].valid() by {
                if k < 5 {
                    assert(v7@[k] == board@[k]);
                } else {
                    assert(v7@[k] == seq![v.0, v.1][k - 5]);
                }
            }
            assert forall|k1: int, k2: int| 0 <= k1 < k2 < v7@.len() implies v7@[k1] != v7@[k2] by {
                if k2 < 5 {
                    assert(v7@[k1] == (board@ + hero@)[k1] && v7@[k2] == (board@ + hero@)[k2]);
                } else if k1 < 5 {
                    assert(v7@[k1] == board@[k1]);
                    assert(v7@[k2] == v.0 || v7@[k2] == v.1);
                    if board@[k1] == v.0 {
                        assert(board@.contains(v.0));
                    }
                    if board@[k1] == v.1 {
                        assert(board@.contains(v.1));
                    }
                } else {
                    assert(v7@[k1] == v.0 && v7@[k2] == v.1);
                }
            }
        }
        let w = first_outranks_second(&v7, &hero7);
        r.push(Beats { hand: v, villain_wins: w });
        i += 1;
    }
    assert(r@ =~= enemy@.map_values(|v: (Card, Card)| beats_of(hero@, board@, v)));
    r
}

/// The deck a street evaluates over: distinct valid cards, none of them on
/// the board or in the hero's hand.
pub open spec fn deck_ok(hero: Seq<Card>, board: Seq<Card>, deck: Seq<Card>) -> bool {
    cards_valid(deck) && distinct_seq(deck) && forall|k: int| #![trigger deck[k]] 0 <= k
        < deck.len() ==> !board.contains(deck[k]) && !hero.contains(deck[k])
}

/// The pairs drawn from an admissible deck are admissible villain hands.
proof fn lemma_deck_pairs_ok(hero: Seq<Card>, board: Seq<Card>, deck: Seq<Card>)
    requires
        deck_ok(hero, board, deck),
    ensures
        enemy_ok(board, all_pairs(deck)),
{
    lemma_enumeration_correct(deck);
    lemma_pairs_upto_valid(deck, deck.len() as int);
    assert forall|k: int| #![trigger all_pairs(deck)[k]] 0 <= k < all_pairs(deck).len() implies all_pairs(
        deck,
    )[k].0.valid() && all_pairs(deck)[k].1.valid() && all_pairs(deck)[k].0 != all_pairs(deck)[k].1
        && !board.contains(all_pairs(deck)[k].0) && !board.contains(all_pairs(deck)[k].1) by {
        let a = choose|a: int| 0 <= a < deck.len() && #[trigger] deck[a] == all_pairs(deck)[k].0;
        assert(!board.contains(deck[a]));
        let b = choose|b: int| 0 <= b < deck.len() && #[trigger] deck[b] == all_pairs(deck)[k].1;
        assert(!board.contains(deck[b]));
    }
}

/// The river case: enumerate every villain hand from the remaining deck and
/// aggregate one scenario per hand.
pub fn river_calc(user_hand: Vec<Card>, board: Vec<Card>, remaining: Vec<Card>) -> (r: Equity)
    requires
        cards_valid(user_hand@),
        cards_valid(board@),
        user_hand@.len() == 2,
        board@.len() == 5,
        distinct_seq(board@ + user_hand@),
        deck_ok(user_hand@, board@, remaining@),
    ensures
        r.matches(river_outcomes(user_hand@, board@, remaining@)),
{
    let enemy = card_pairs(&remaining);
    proof {
        lemma_deck_pairs_ok(user_hand@, board@, remaining@);
    }
    let beats = hand_beats(&user_hand, &board, &enemy);
    proof {
        lemma_pairs_upto_valid(remaining@, remaining@.len() as int);
        assert forall|k: int| 0 <= k < beats@.len() implies #[trigger] beats@[k].hand.0.valid()
            && beats@[k].hand.1.valid() by {
            assert(beats@[k] == beats_of(user_hand@, board@, all_pairs(remaining@)[k]));
        }
    }
    prob_calc(&beats)
}

/// The scenarios of the first `i` one-card board completions: for each, the
/// river scenarios on the extended board against the deck less that card.
pub open spec fn turn_upto(hero: Seq<Card>, board: Seq<Card>, deck: Seq<Card>, i: int) -> Seq<
    Beats,
>
    decreases i,
{
    if i <= 0 {
        Seq::empty()
    } else {
        turn_upto(hero, board, deck, i - 1) + river_outcomes(
            hero,
            board.push(deck[i - 1]),
            deck.remove(i - 1),
        )
    }
}

/// The turn scenarios: every one-card completion of the board, each branch
/// evaluated against its own remaining deck.
pub open spec fn turn_outcomes(hero: Seq<Card>, board: Seq<Card>, deck: Seq<Card>) -> Seq<Beats> {
    turn_upto(hero, board, deck, deck.len() as int)
}

/// Removing one card keeps the deck valid.
proof fn lemma_remove_valid(s: Seq<Card>, i: int)
    requires
        cards_valid(s),
        0 <= i < s.len(),
    ensures
        cards_valid(s.remove(i)),
{
    assert forall|k: int| 0 <= k < s.remove(i).len() implies #[trigger] s.remove(i)[k].valid() by {
        if k < i {
            assert(s.remove(i)[k] == s[k]);
        } else {
            assert(s.remove(i)[k] == s[k + 1]);
        }
    }
}

/// The branch deck left by removing one completion card is admissible on
/// the extended board.
proof fn lemma_turn_branch_ok(hero: Seq<Card>, board: Seq<Card>, deck: Seq<Card>, t: int)
    requires
        distinct_seq(board + hero),
        deck_ok(hero, board, deck),
        0 <= t < deck.len(),
    ensures
        distinct_seq(board.push(deck[t]) + hero),
        deck_ok(hero, board.push(deck[t]), deck.remove(t)),
{
    lemma_remove_valid(deck, t);
    lemma_remove_distinct(deck, t);
    lemma_insert_card_distinct(board, hero, deck[t]);
    let grown = board.push(deck[t]);
    assert forall|k: int| #![trigger deck.remove(t)[k]] 0 <= k < deck.remove(t).len() implies !grown.contains(
        deck.remove(t)[k],
    ) && !hero.contains(deck.remove(t)[k]) by {
        let m: int = if k < t {
            k
        } else {
            k + 1
        };
        assert(deck.remove(t)[k] == deck[m]);
        assert(!board.contains(deck[m]) && !hero.contains(deck[m]));
        if grown.contains(deck[m]) {
            let i = choose|i: int| 0 <= i < grown.len() && grown[i] == deck[m];
            if i < board.len() {
                assert(board.contains(deck[m]));
            } else {
                assert(deck[m] == deck[t]);
            }
            assert(false);
        }
    }
}

/// The turn case: enumerate every one-card board completion, then every
/// villain hand inside each branch, and aggregate all scenarios.
pub fn turn_calc(user_hand: Vec<Card>, board: Vec<Card>, remaining: Vec<Card>) -> (r: Equity)
    requires
        cards_valid(user_hand@),
        cards_valid(board@),
        user_hand@.len() == 2,
        board@.len() == 4,
        distinct_seq(board@ + user_hand@),
        deck_ok(user_hand@, board@, remaining@),
    ensures
        r.matches(turn_outcomes(user_hand@, board@, remaining@)),
{
    let mut outcomes: Vec<Beats> = Vec::new();
    let mut t: usize = 0;
    while t < remaining.len()
        invariant
            t <= remaining@.len(),
            cards_valid(user_hand@),
            cards_valid(board@),
            user_hand@.len() == 2,
            board@.len() == 4,
            distinct_seq(board@ + user_hand@),
            deck_ok(user_hand@, board@, remaining@),
            outcomes@ == turn_upto(user_hand@, board@, remaining@, t as int),
            outcomes_valid(outcomes@),
        decreases remaining@.len() - t,
    {
        let mut river_board = copy_cards(&board);
        river_board.push(remaining[t]);
        let mut branch = copy_cards(&remaining);
        branch.remove(t);
        proof {
            lemma_remove_valid(remaining@, t as int);
            lemma_turn_branch_ok(user_hand@, board@, remaining@, t as int);
            lemma_deck_pairs_ok(user_hand@, river_board@, branch@);
            assert forall|k: int| 0 <= k < river_board@.len() implies #[trigger] river_board@[k].valid() by {
                if k < 4 {
                    assert(river_board@[k] == board@[k]);
                } else {
                    assert(river_board@[k] == remaining@[t as int]);
                }
            }
        }
        let enemy = card_pairs(&branch);
        let mut beats = hand_beats(&user_hand, &river_board, &enemy);
        proof {
            lemma_pairs_upto_valid(branch@, branch@.len() as int);
            assert forall|k: int| 0 <= k < beats@.len() implies #[trigger] beats@[k].hand.0.valid()
                && beats@[k].hand.1.valid() by {
                assert(beats@[k] == beats_of(user_hand@, river_board@, all_pairs(branch@)[k]));
            }
        }
        let ghost old_outcomes = outcomes@;
        outcomes.append(&mut beats);
        proof {
            assert(outcomes@ == turn_upto(user_hand@, board@, remaining@, t as int + 1));
            assert forall|k: int| 0 <= k < outcomes@.len() implies #[trigger] outcomes@[k].hand.0.valid()
                && outcomes@[k].hand.1.valid() by {
                if k < old_outcomes.len() {
                    assert(outcomes@[k] == old_outcomes[k]);
                }
            }
        }
        t += 1;
    }
    prob_calc(&outcomes)
}

/// The scenarios of the completions that pair `deck[i]` with each later card
/// up to position `j`.
pub open spec fn flop_row_upto(
    hero: Seq<Card>,
    board: Seq<Card>,
    deck: Seq<Card>,
    i: int,
    j: int,
) -> Seq<Beats>
    decreases j - i,
{
    if j <= i + 1 {
        Seq::empty()
    } else {
        flop_row_upto(hero, board, deck, i, j - 1) + river_outcomes(
            hero,
            board.push(deck[i]).push(deck[j - 1]),
            deck.remove(j - 1).remove(i),
        )
    }
}

/// The scenarios of every two-card completion whose earlier card lies among
/// the first `i` deck positions.
pub open spec fn flop_upto(hero: Seq<Card>, board: Seq<Card>, deck: Seq<Card>, i: int) -> Seq<
    Beats,
>
    decreases i,
{
    if i <= 0 {
        Seq::empty()
    } else {
        flop_upto(hero, board, deck, i - 1) + flop_row_upto(
            hero,
            board,
            deck,
            i - 1,
            deck.len() as int,
        )
    }
}

/// The flop scenarios: every two-card completion of the board, each branch
/// evaluated against its own remaining deck.
pub open spec fn flop_outcomes(hero: Seq<Card>, board: Seq<Card>, deck: Seq<Card>) -> Seq<Beats> {
    flop_upto(hero, board, deck, deck.len() as int)
}

/// The branch deck left by removing a two-card completion is admissible on
/// the twice-extended board.
proof fn lemma_flop_branch_ok(hero: Seq<Card>, board: Seq<Card>, deck: Seq<Card>, i: int, j: int)
    requires
        distinct_seq(board + hero),
        deck_ok(hero, board, deck),
        0 <= i < j < deck.len(),
    ensures
        distinct_seq(board.push(deck[i]).push(deck[j]) + hero),
        deck_ok(hero, board.push(deck[i]).push(deck[j]), deck.remove(j).remove(i)),
{
    lemma_remove_valid(deck, j);
    lemma_remove_distinct(deck, j);
    lemma_remove_valid(deck.remove(j), i);
    lemma_remove_distinct(deck.remove(j), i);
    lemma_insert_card_distinct(board, hero, deck[i]);
    let once = board.push(deck[i]);
    assert(!once.contains(deck[j])) by {
        if once.contains(deck[j]) {
            let x = choose|x: int| 0 <= x < once.len() && once[x] == deck[j];
            if x < board.len() {
                assert(board.contains(deck[j]));
            } else {
                assert(deck[j] == deck[i]);
            }
            assert(false);
        }
    }
    lemma_insert_card_distinct(once, hero, deck[j]);
    let grown = once.push(deck[j]);
    let branch = deck.remove(j).remove(i);
    assert forall|k: int| #![trigger branch[k]] 0 <= k < branch.len() implies !grown.contains(
        branch[k],
    ) && !hero.contains(branch[k]) by {
        let s1 = deck.remove(j);
        let m1: int = if k < i {
            k
        } else {
            k + 1
        };
        assert(branch[k] == s1[m1]);
        let m: int = if m1 < j {
            m1
        } else {
            m1 + 1
        };
        assert(s1[m1] == deck[m]);
        assert(m != i && m != j);
        assert(!board.contains(deck[m]) && !hero.contains(deck[m]));
        if grown.contains(deck[m]) {
            let x = choose|x: int| 0 <= x < grown.len() && grown[x] == deck[m];
            if x < board.len() {
                assert(board.contains(deck[m]));
            } else if x == board.len() {
                assert(deck[m] == deck[i]);
            } else {
                assert(deck[m] == deck[j]);
            }
            assert(false);
        }
    }
}

/// The flop case: enumerate every two-card board completion, then every
/// villain hand inside each branch, and aggregate all scenarios.
pub fn flop_calc(user_hand: Vec<Card>, board: Vec<Card>, remaining: Vec<Card>) -> (r: Equity)
    requires
        cards_valid(user_hand@),
        cards_valid(board@),
        user_hand@.len() == 2,
        board@.len() == 3,
        distinct_seq(board@ + user_hand@),
        deck_ok(user_hand@, board@, remaining@),
    ensures
        r.matches(flop_outcomes(user_hand@, board@, remaining@)),
{
    let mut outcomes: Vec<Beats> = Vec::new();
    let mut i: usize = 0;
    while i < remaining.len()
        invariant
            i <= remaining@.len(),
            cards_valid(user_hand@),
            cards_valid(board@),
            user_hand@.len() == 2,
            board@.len() == 3,
            distinct_seq(board@ + user_hand@),
            deck_ok(user_hand@, board@, remaining@),
            outcomes@ == flop_upto(user_hand@, board@, remaining@, i as int),
            outcomes_valid(outcomes@),
        decreases remaining@.len() - i,
    {
        let mut j: usize = i + 1;
        while j < remaining.len()
            invariant
                i < remaining@.len(),
                i + 1 <= j <= remaining@.len(),
                cards_valid(user_hand@),
                cards_valid(board@),
                user_hand@.len() == 2,
                board@.len() == 3,
                distinct_seq(board@ + user_hand@),
                deck_ok(user_hand@, board@, remaining@),
                outcomes@ == flop_upto(user_hand@, board@, remaining@, i as int) + flop_row_upto(
                    user_hand@,
                    board@,
                    remaining@,
                    i as int,
                    j as int,
                ),
                outcomes_valid(outcomes@),
            decreases remaining@.len() - j,
        {
            let mut river_board = copy_cards(&board);
            river_board.push(remaining[i]);
            river_board.push(remaining[j]);
            let mut branch = copy_cards(&remaining);
            branch.remove(j);
            branch.remove(i);
            proof {
                lemma_remove_valid(remaining@, j as int);
                lemma_remove_valid(remaining@.remove(j as int), i as int);
                lemma_flop_branch_ok(user_hand@, board@, remaining@, i as int, j as int);
                lemma_deck_pairs_ok(user_hand@, river_board@, branch@);
                assert forall|k: int| 0 <= k < river_board@.len() implies #[trigger] river_board@[k].valid() by {
                    if k < 3 {
                        assert(river_board@[k] == board@[k]);
                    } else if k == 3 {
                        assert(river_board@[k] == remaining@[i as int]);
                    } else {
                        assert(river_board@[k] == remaining@[j as int]);
                    }
                }
            }
            let enemy = card_pairs(&branch);
            let mut beats = hand_beats(&user_hand, &river_board, &enemy);
            proof {
                lemma_pairs_upto_valid(branch@, branch@.len() as int);
                assert forall|k: int| 0 <= k < beats@.len() implies #[trigger] beats@[k].hand.0.valid()
                    && beats@[k].hand.1.valid() by {
                    assert(beats@[k] == beats_of(user_hand@, river_board@, all_pairs(branch@)[k]));
                }
            }
            let ghost old_outcomes = outcomes@;
            outcomes.append(&mut beats);
            proof {
                assert(outcomes@ == flop_upto(user_hand@, board@, remaining@, i as int)
                    + flop_row_upto(user_hand@, board@, remaining@, i as int, j as int + 1));
                assert forall|k: int| 0 <= k < outcomes@.len() implies #[trigger] outcomes@[k].hand.0.valid()
                    && outcomes@[k].hand.1.valid() by {
                    if k < old_outcomes.len() {
                        assert(outcomes@[k] == old_outcomes[k]);
                    }
                }
            }
            j += 1;
        }
        i += 1;
        assert(outcomes@ == flop_upto(user_hand@, board@, remaining@, i as int));
    }
    prob_calc(&outcomes)
}

/// The scenarios that a query's street asks for: a five-card board is the
/// river base case, a four-card board completes one card, a three-card board
/// completes two.
pub open spec fn calc_outcomes(hero: Seq<Card>, board: Seq<Card>, deck: Seq<Card>) -> Seq<Beats> {
    if board.len() == 5 {
        river_outcomes(hero, board, deck)
    } else if board.len() == 4 {
        turn_outcomes(hero, board, deck)
    } else {
        flop_outcomes(hero, board, deck)
    }
}

/// Evaluate a query on any post-flop street.
pub fn calc(user_hand: Vec<Card>, board: Vec<Card>, remaining: Vec<Card>) -> (r: Equity)
    requires
        cards_valid(user_hand@),
        cards_valid(board@),
        user_hand@.len() == 2,
        3 <= board@.len() <= 5,
        distinct_seq(board@ + user_hand@),
        deck_ok(user_hand@, board@, remaining@),
    ensures
        r.matches(calc_outcomes(user_hand@, board@, remaining@)),
{
    if board.len() == 5 {
        river_calc(user_hand, board, remaining)
    } else if board.len() == 4 {
        turn_calc(user_hand, board, remaining)
    } else {
        flop_calc(user_hand, board, remaining)
    }
}

/// Law: over a deck of d cards the river evaluation holds exactly
/// C(d, 2) scenarios: twice their number is d * (d - 1).
pub proof fn lemma_river_scenario_count(hero: Seq<Card>, board: Seq<Card>, deck: Seq<Card>)
    ensures
        2 * river_outcomes(hero, board, deck).len() == deck.len() * (deck.len() as int - 1),
{
    lemma_all_pairs_len(deck);
}

/// The first `i` one-card completions hold `i` river branches of
/// C(d - 1, 2) scenarios each.
proof fn lemma_turn_upto_count(hero: Seq<Card>, board: Seq<Card>, deck: Seq<Card>, i: int)
    requires
        0 <= i <= deck.len(),
    ensures
        2 * turn_upto(hero, board, deck, i).len() == i * ((deck.len() as int - 1) * (
        deck.len() as int - 2)),
    decreases i,
{
    if i > 0 {
        lemma_turn_upto_count(hero, board, deck, i - 1);
        let branch = river_outcomes(hero, board.push(deck[i - 1]), deck.remove(i - 1));
        assert(turn_upto(hero, board, deck, i) == turn_upto(hero, board, deck, i - 1) + branch);
        assert(turn_upto(hero, board, deck, i).len() == turn_upto(hero, board, deck, i - 1).len()
            + branch.len());
        lemma_river_scenario_count(hero, board.push(deck[i - 1]), deck.remove(i - 1));
        assert(deck.remove(i - 1).len() == deck.len() - 1);
        let c = (deck.len() as int - 1) * (deck.len() as int - 2);
        assert(2 * branch.len() == c);
        assert(2 * turn_upto(hero, board, deck, i - 1).len() == (i - 1) * c);
        assert((i - 1) * c + c == i * c) by (nonlinear_arith);
        assert(2 * turn_upto(hero, board, deck, i).len() == i * c);
    } else {
        assert(turn_upto(hero, board, deck, i).len() == 0);
    }
}

/// Law: over a deck of d cards the turn evaluation holds exactly
/// d * C(d - 1, 2) scenarios: twice their number is d * (d - 1) * (d - 2).
pub proof fn lemma_turn_scenario_count(hero: Seq<Card>, board: Seq<Card>, deck: Seq<Card>)
    ensures
        2 * turn_outcomes(hero, board, deck).len() == deck.len() * ((deck.len() as int - 1) * (
        deck.len() as int - 2)),
{
    lemma_turn_upto_count(hero, board, deck, deck.len() as int);
}

/// The completions pairing `deck[i]` with each later card up to `j` hold
/// `j - i - 1` river branches of C(d - 2, 2) scenarios each.
#[verifier::spinoff_prover]
#[verifier::rlimit(30)]
proof fn lemma_flop_row_count(hero: Seq<Card>, board: Seq<Card>, deck: Seq<Card>, i: int, j: int)
    requires
        0 <= i < j <= deck.len(),
    ensures
        2 * flop_row_upto(hero, board, deck, i, j).len() == (j - i - 1) * ((deck.len() as int - 2) * (
        deck.len() as int - 3)),
    decreases j - i,
{
    if j > i + 1 {
        lemma_flop_row_count(hero, board, deck, i, j - 1);
        assert(flop_row_upto(hero, board, deck, i, j) == flop_row_upto(hero, board, deck, i, j - 1)
            + river_outcomes(
            hero,
            board.push(deck[i]).push(deck[j - 1]),
            deck.remove(j - 1).remove(i),
        ));
        let b2 = board.push(deck[i]).push(deck[j - 1]);
        let d2 = deck.remove(j - 1).remove(i);
        lemma_river_scenario_count(hero, b2, d2);
        assert(d2.len() == deck.len() - 2);
        let c = (deck.len() as int - 2) * (deck.len() as int - 3);
        assert(2 * river_outcomes(hero, b2, d2).len() == c);
        assert(flop_row_upto(hero, board, deck, i, j).len() == flop_row_upto(
            hero,
            board,
            deck,
            i,
            j - 1,
        ).len() + river_outcomes(hero, b2, d2).len());
        assert(2 * flop_row_upto(hero, board, deck, i, j - 1).len() == (j - 1 - i - 1) * c);
        assert((j - 1 - i - 1) * c + c == (j - i - 1) * c) by (nonlinear_arith);
        assert(2 * flop_row_upto(hero, board, deck, i, j).len() == (j - i - 1) * c);
    } else {
        assert(flop_row_upto(hero, board, deck, i, j).len() == 0);
        let c = (deck.len() as int - 2) * (deck.len() as int - 3);
        assert((j - i - 1) * c == 0) by (nonlinear_arith)
            requires
                j - i - 1 == 0,
        ;
    }
    assert(2 * flop_row_upto(hero, board, deck, i, j).len() == (j - i - 1) * ((
    deck.len() as int - 2) * (deck.len() as int - 3)));
}

/// The completions whose earlier card lies among the first `i` positions
/// hold as many river branches as there are such position pairs.
#[verifier::spinoff_prover]
#[verifier::rlimit(30)]
proof fn lemma_flop_upto_count(hero: Seq<Card>, board: Seq<Card>, deck: Seq<Card>, i: int)
    requires
        0 <= i <= deck.len(),
    ensures
        4 * flop_upto(hero, board, deck, i).len() == (i * (2 * deck.len() - i - 1)) * ((
        deck.len() as int - 2) * (deck.len() as int - 3)),
    decreases i,
{
    if i > 0 {
        lemma_flop_upto_count(hero, board, deck, i - 1);
        lemma_flop_row_count(hero, board, deck, i - 1, deck.len() as int);
        assert(flop_upto(hero, board, deck, i) == flop_upto(hero, board, deck, i - 1)
            + flop_row_upto(hero, board, deck, i - 1, deck.len() as int));
        assert(flop_upto(hero, board, deck, i).len() == flop_upto(hero, board, deck, i - 1).len()
            + flop_row_upto(hero, board, deck, i - 1, deck.len() as int).len());
        let n = deck.len() as int;
        let c = (n - 2) * (n - 3);
        assert(4 * flop_upto(hero, board, deck, i - 1).len() == ((i - 1) * (2 * n - (i - 1) - 1))
            * c);
        assert(2 * flop_row_upto(hero, board, deck, i - 1, n).len() == (n - (i - 1) - 1) * c);
        assert(((i - 1) * (2 * n - i)) * c + 2 * ((n - i) * c) == (i * (2 * n - i - 1)) * c)
            by (nonlinear_arith);
        assert(4 * flop_upto(hero, board, deck, i).len() == (i * (2 * n - i - 1)) * c);
    } else {
        assert(flop_upto(hero, board, deck, i).len() == 0);
        let c = (deck.len() as int - 2) * (deck.len() as int - 3);
        assert((i * (2 * deck.len() - i - 1)) * c == 0) by (nonlinear_arith)
            requires
                i == 0,
        ;
    }
    assert(4 * flop_upto(hero, board, deck, i).len() == (i * (2 * deck.len() - i - 1)) * ((
    deck.len() as int - 2) * (deck.len() as int - 3)));
}

/// Law: over a deck of d cards the flop evaluation holds exactly
/// C(d, 2) * C(d - 2, 2) scenarios: four times their number is
/// d * (d - 1) * (d - 2) * (d - 3).
pub proof fn lemma_flop_scenario_count(hero: Seq<Card>, board: Seq<Card>, deck: Seq<Card>)
    ensures
        4 * flop_outcomes(hero, board, deck).len() == (deck.len() * (deck.len() as int - 1)) * ((
        deck.len() as int - 2) * (deck.len() as int - 3)),
{
    lemma_flop_upto_count(hero, board, deck, deck.len() as int);
    let n = deck.len() as int;
    assert(n * (2 * n - n - 1) == n * (n - 1)) by (nonlinear_arith);
}

/// Law: evaluation is idempotent — the evaluator's result is a pure function
/// of the hand, the board, and the remaining deck, so evaluating the same
/// query twice yields identical equity samples.
pub proof fn lemma_eval_idempotent(
    g1: Equity,
    g2: Equity,
    hero: Seq<Card>,
    board: Seq<Card>,
    deck: Seq<Card>,
)
    requires
        g1.matches(calc_outcomes(hero, board, deck)),
        g2.matches(calc_outcomes(hero, board, deck)),
    ensures
        g1.win@ == g2.win@,
        g1.total@ == g2.total@,
{
    lemma_aggregation_deterministic(g1, g2, calc_outcomes(hero, board, deck));
}

/// The first validation error of a single query, or nothing when the query
/// is well formed: the board is read first, then the hand, then the board's
/// length is checked, the hand's, and card uniqueness across both.
pub open spec fn spec_query_error(hand_s: Seq<u8>, board_s: Seq<u8>) -> Option<InputError> {
    match spec_parse_cards(board_s) {
        None => Some(InputError::MalformedCardToken),
        Some(board) => match spec_parse_cards(hand_s) {
            None => Some(InputError::MalformedCardToken),
            Some(hand) => if board.len() < 3 || board.len() > 5 {
                Some(InputError::WrongBoardLength)
            } else if hand.len() != 2 {
                Some(InputError::WrongHandLength)
            } else if !distinct_seq(hand + board) {
                Some(InputError::DuplicateCard)
            } else {
                None
            },
        },
    }
}

/// Every card of the 52-card universe is valid.
pub proof fn lemma_full_deck_valid()
    ensures
        cards_valid(full_deck()),
{
    assert forall|k: int| 0 <= k < full_deck().len() implies #[trigger] full_deck()[k].valid() by {
        assert(full_deck()[k] == Card { rank: (k / 4) as u8, suit: (k % 4) as u8 });
        assert(0 <= k / 4 < 13);
        assert(0 <= k % 4 < 4);
    }
}

/// Run one whole query from raw inputs: read the cards, validate them,
/// build the remaining deck, and evaluate the street that the board length
/// selects.
/// The first validation error of an evaluation over already-parsed cards,
/// or nothing when the query is admissible: board length first, then hand
/// length, card validity, and uniqueness across hand and board.
pub open spec fn spec_eval_error(hand: Seq<Card>, board: Seq<Card>) -> Option<InputError> {
    if board.len() < 3 || board.len() > 5 {
        Some(InputError::WrongBoardLength)
    } else if hand.len() != 2 {
        Some(InputError::WrongHandLength)
    } else if !cards_valid(hand + board) {
        Some(InputError::MalformedCardToken)
    } else if !distinct_seq(hand + board) {
        Some(InputError::DuplicateCard)
    } else {
        None
    }
}

/// Whether every card of the collection is valid.
pub fn all_valid(cards: &Vec<Card>) -> (r: bool)
    ensures
        r == cards_valid(cards@),
{
    let mut i: usize = 0;
    while i < cards.len()
        invariant
            i <= cards@.len(),
            forall|k: int| #![trigger cards@[k]] 0 <= k < i ==> cards@[k].valid(),
        decreases cards@.len() - i,
    {
        if !(cards[i].rank < 13 && cards[i].suit < 4) {
            return false;
        }
        i += 1;
    }
    true
}

/// Evaluate one query from cards in hand: validate them, build the
/// remaining deck, and evaluate the street that the board length selects.
/// Total over every input — each inadmissible query names its error.
pub fn evaluate_cards(user_hand: Vec<Card>, board: Vec<Card>) -> (r: Result<Equity, InputError>)
    ensures
        match r {
            Ok(g) => spec_eval_error(user_hand@, board@) is None && g.matches(
                calc_outcomes(user_hand@, board@, minus(full_deck(), user_hand@, board@)),
            ),
            Err(e) => spec_eval_error(user_hand@, board@) == Some(e),
        },
{
    if board.len() < 3 || board.len() > 5 {
        return Err(InputError::WrongBoardLength);
    }
    if user_hand.len() != 2 {
        return Err(InputError::WrongHandLength);
    }
    let mut all = copy_cards(&user_hand);
    let mut board_copy = copy_cards(&board);
    all.append(&mut board_copy);
    if !all_valid(&all) {
        return Err(InputError::MalformedCardToken);
    }
    if !all_distinct(&all) {
        return Err(InputError::DuplicateCard);
    }
    let deck = deck_without(&user_hand, &board);
    proof {
        assert forall|k: int| 0 <= k < user_hand@.len() implies #[trigger] user_hand@[k].valid() by {
            assert(user_hand@[k] == all@[k]);
        }
        assert forall|k: int| 0 <= k < board@.len() implies #[trigger] board@[k].valid() by {
            assert(board@[k] == all@[user_hand@.len() + k]);
        }
        lemma_distinct_swap(user_hand@, board@);
        lemma_full_deck_valid();
        lemma_full_deck_distinct();
        lemma_minus_distinct(full_deck(), user_hand@, board@);
        lemma_minus_characterized(full_deck(), user_hand@, board@);
        assert forall|k: int| #![trigger deck@[k]] 0 <= k < deck@.len() implies deck@[k].valid()
            && !board@.contains(deck@[k]) && !user_hand@.contains(deck@[k]) by {
            assert(deck@[k] == minus(full_deck(), user_hand@, board@)[k]);
            assert(full_deck().contains(deck@[k]));
            let a = choose|a: int| 0 <= a < full_deck().len() && #[trigger] full_deck()[a]
                == deck@[k];
            assert(full_deck()[a].valid());
        }
    }
    Ok(calc(user_hand, board, deck))
}

/// Run one whole query from raw inputs: read the cards, validate them,
/// build the remaining deck, and evaluate the street that the board length
/// selects.
pub fn run_query(hand_input: &Vec<u8>, board_input: &Vec<u8>) -> (r: Result<Equity, InputError>)
    ensures
        match r {
            Ok(g) => spec_query_error(hand_input@, board_input@) is None && g.matches(
                calc_outcomes(
                    spec_parse_cards(hand_input@).unwrap(),
                    spec_parse_cards(board_input@).unwrap(),
                    minus(
                        full_deck(),
                        spec_parse_cards(hand_input@).unwrap(),
                        spec_parse_cards(board_input@).unwrap(),
                    ),
                ),
            ),
            Err(e) => spec_query_error(hand_input@, board_input@) == Some(e),
        },
{
    let board = match parse_cards(board_input) {
        Ok(b) => b,
        Err(e) => {
            return Err(e);
        },
    };
    let hand = match parse_cards(hand_input) {
        Ok(h) => h,
        Err(e) => {
            return Err(e);
        },
    };
    proof {
        lemma_parse_valid(hand_input@);
        lemma_parse_valid(board_input@);
        assert forall|k: int| 0 <= k < (hand@ + board@).len() implies #[trigger] (hand@
            + board@)[k].valid() by {
            if k < hand@.len() {
                assert((hand@ + board@)[k] == hand@[k]);
            } else {
                assert((hand@ + board@)[k] == board@[k - hand@.len()]);
            }
        }
        assert(spec_eval_error(hand@, board@) != Some(InputError::MalformedCardToken));
    }
    evaluate_cards(hand, board)
}

} // verus!
