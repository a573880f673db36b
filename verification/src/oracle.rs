//! The hand-strength oracle: rs_poker's seven-card evaluator, reached through
//! one trusted comparison. The evaluator's ranking algorithm is opaque to this
//! crate; everything downstream speaks only of the comparison's named result.

use vstd::prelude::*;
use crate::types::{Card, cards_valid};
use crate::combos::distinct_seq;

verus! {

/// Strength comparison of two card collections, as rs_poker's evaluator
/// defines it: whether the best five-card poker hand drawable from `a`
/// strictly outranks the best one drawable from `b`. The evaluator computes
/// from the cards' ranks and suits alone, so this is a pure function of the
/// two sequences.
pub uninterp spec fn outranks(a: Seq<Card>, b: Seq<Card>) -> bool;

/// Relies on rs_poker's `Rankable::rank` for `Vec<Card>` — the strength of
/// the best five-card poker hand among the given cards, a pure function of
/// the card set — and on the total order that rs_poker derives on `Rank`,
/// which follows the standard poker hand ranking. The conversion goes
/// through rs_poker's `Value::from_u8` and `Suit::from_u8`, which map each
/// in-range code to its variant one for one. The evaluator is defined on
/// distinct-card sets of five to seven cards and can panic outside that
/// domain, so the contract admits nothing else.
#[verifier::external_body]
pub(crate) fn first_outranks_second(a: &Vec<Card>, b: &Vec<Card>) -> (r: bool)
    requires
        cards_valid(a@),
        cards_valid(b@),
        distinct_seq(a@),
        distinct_seq(b@),
        5 <= a@.len() <= 7,
        5 <= b@.len() <= 7,
    ensures
        r == outranks(a@, b@),
{
    let to_rs = |c: &Card| rs_poker::core::Card {
        value: rs_poker::core::Value::from_u8(c.rank),
        suit: rs_poker::core::Suit::from_u8(c.suit),
    };
    let va: Vec<rs_poker::core::Card> = a.iter().map(to_rs).collect();
    let vb: Vec<rs_poker::core::Card> = b.iter().map(to_rs).collect();
    let ra = rs_poker::core::Rankable::rank(&va);
    let rb = rs_poker::core::Rankable::rank(&vb);
    ra > rb
}

} // verus!
