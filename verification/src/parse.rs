//! Reading card collections from concatenated `<rank><suit>` tokens: rank in
//! 2-9, T, J, Q, K, A and suit in h, d, c, s, with no separators. Also the
//! uniqueness check over the cards a query names, and the interactive
//! session's exit word.

use vstd::prelude::*;
use crate::types::{Card, InputError, cards_valid};
use crate::combos::distinct_seq;

verus! {

/// The rank a token character denotes, if any: the ASCII digits 2 through 9
/// (codes 50-57) and the letters T, J, Q, K, A (codes 84, 74, 81, 75, 65).
pub open spec fn spec_rank_of(ch: u8) -> Option<u8> {
    if 50 <= ch <= 57 {
        Some((ch - 50) as u8)
    } else if ch == 84 {
        Some(8u8)
    } else if ch == 74 {
        Some(9u8)
    } else if ch == 81 {
        Some(10u8)
    } else if ch == 75 {
        Some(11u8)
    } else if ch == 65 {
        Some(12u8)
    } else {
        None
    }
}

/// The suit a token character denotes, if any: the ASCII letters s, c, h, d
/// (codes 115, 99, 104, 100).
pub open spec fn spec_suit_of(ch: u8) -> Option<u8> {
    if ch == 115 {
        Some(0u8)
    } else if ch == 99 {
        Some(1u8)
    } else if ch == 104 {
        Some(2u8)
    } else if ch == 100 {
        Some(3u8)
    } else {
        None
    }
}

/// The cards that the whole input denotes: two characters per card, every
/// token well formed, or nothing.
pub open spec fn spec_parse_cards(s: Seq<u8>) -> Option<Seq<Card>>
    decreases s.len(),
{
    if s.len() == 0 {
        Some(Seq::empty())
    } else if s.len() == 1 {
        None
    } else {
        match (spec_rank_of(s[0]), spec_suit_of(s[1])) {
            (Some(r), Some(su)) => match spec_parse_cards(s.skip(2)) {
                Some(rest) => Some(seq![Card { rank: r, suit: su }] + rest),
                None => None,
            },
            _ => None,
        }
    }
}

/// Read one rank character.
pub fn rank_of(ch: u8) -> (r: Option<u8>)
    ensures
        r == spec_rank_of(ch),
{
    if 50 <= ch && ch <= 57 {
        Some(ch - 50)
    } else if ch == 84 {
        Some(8)
    } else if ch == 74 {
        Some(9)
    } else if ch == 81 {
        Some(10)
    } else if ch == 75 {
        Some(11)
    } else if ch == 65 {
        Some(12)
    } else {
        None
    }
}

/// Read one suit character.
pub fn suit_of(ch: u8) -> (r: Option<u8>)
    ensures
        r == spec_suit_of(ch),
{
    if ch == 115 {
        Some(0)
    } else if ch == 99 {
        Some(1)
    } else if ch == 104 {
        Some(2)
    } else if ch == 100 {
        Some(3)
    } else {
        None
    }
}

/// Every card that parsing yields is valid.
pub proof fn lemma_parse_valid(s: Seq<u8>)
    requires
        spec_parse_cards(s) is Some,
    ensures
        cards_valid(spec_parse_cards(s).unwrap()),
    decreases s.len(),
{
    if s.len() >= 2 {
        lemma_parse_valid(s.skip(2));
        let head = Card {
            rank: spec_rank_of(s[0]).unwrap(),
            suit: spec_suit_of(s[1]).unwrap(),
        };
        let rest = spec_parse_cards(s.skip(2)).unwrap();
        assert(spec_parse_cards(s).unwrap() == seq![head] + rest);
        assert forall|k: int| 0 <= k < spec_parse_cards(s).unwrap().len() implies #[trigger] spec_parse_cards(
            s,
        ).unwrap()[k].valid() by {
            if k == 0 {
                assert(spec_parse_cards(s).unwrap()[k] == head);
            } else {
                assert(spec_parse_cards(s).unwrap()[k] == rest[k - 1]);
            }
        }
    }
}

/// Read a whole card collection, or report the first malformed token.
pub fn parse_cards(input: &Vec<u8>) -> (r: Result<Vec<Card>, InputError>)
    ensures
        match r {
            Ok(cards) => spec_parse_cards(input@) == Some(cards@),
            Err(e) => spec_parse_cards(input@) is None && e == InputError::MalformedCardToken,
        },
{
    let mut out: Vec<Card> = Vec::new();
    let mut pos: usize = 0;
    proof {
        assert(input@.skip(0) =~= input@);
        match spec_parse_cards(input@) {
            Some(rest) => {
                assert(Seq::<Card>::empty() + rest =~= rest);
            },
            None => {},
        }
    }
    while pos < input.len()
        invariant
            pos <= input@.len(),
            pos % 2 == 0,
            spec_parse_cards(input@) == (match spec_parse_cards(input@.skip(pos as int)) {
                Some(rest) => Some(out@ + rest),
                None => None::<Seq<Card>>,
            }),
        decreases input@.len() - pos,
    {
        if pos + 1 >= input.len() {
            proof {
                assert(input@.skip(pos as int).len() == 1);
                assert(spec_parse_cards(input@.skip(pos as int)) is None);
            }
            return Err(InputError::MalformedCardToken);
        }
        let r = rank_of(input[pos]);
        let su = suit_of(input[pos + 1]);
        proof {
            assert(input@.skip(pos as int)[0] == input@[pos as int]);
            assert(input@.skip(pos as int)[1] == input@[pos as int + 1]);
            assert(input@.skip(pos as int).len() == input@.len() - pos);
            assert(input@.skip(pos as int).skip(2) =~= input@.skip(pos as int + 2));
        }
        match (r, su) {
            (Some(rank), Some(suit)) => {
                let ghost old_out = out@;
                out.push(Card { rank, suit });
                proof {
                    let head = Card { rank, suit };
                    assert(out@ =~= old_out + seq![head]);
                    match spec_parse_cards(input@.skip(pos as int + 2)) {
                        Some(rest) => {
                            assert(spec_parse_cards(input@.skip(pos as int)) == Some(
                                seq![head] + rest,
                            ));
                            assert(old_out + (seq![head] + rest) =~= (old_out + seq![head]) + rest);
                        },
                        None => {
                            assert(spec_parse_cards(input@.skip(pos as int)) is None);
                        },
                    }
                }
                pos += 2;
            },
            _ => {
                proof {
                    assert(spec_parse_cards(input@.skip(pos as int)) is None);
                }
                return Err(InputError::MalformedCardToken);
            },
        }
    }
    proof {
        assert(input@.skip(input@.len() as int).len() == 0);
        assert(spec_parse_cards(input@.skip(pos as int)) == Some(Seq::<Card>::empty()));
        assert(out@ + Seq::<Card>::empty() =~= out@);
    }
    Ok(out)
}

/// The session's exit word: the four ASCII letters of "exit", either case.
pub open spec fn spec_is_exit(s: Seq<u8>) -> bool {
    s.len() == 4 && (s[0] == 101 || s[0] == 69) && (s[1] == 120 || s[1] == 88) && (s[2]
        == 105 || s[2] == 73) && (s[3] == 116 || s[3] == 84)
}

/// Whether the input is the exit word.
pub fn is_exit(input: &Vec<u8>) -> (r: bool)
    ensures
        r == spec_is_exit(input@),
{
    input.len() == 4 && (input[0] == 101 || input[0] == 69) && (input[1] == 120 || input[1]
        == 88) && (input[2] == 105 || input[2] == 73) && (input[3] == 116 || input[3]
        == 84)
}

/// Whether no card of the collection appears twice.
pub fn all_distinct(cards: &Vec<Card>) -> (r: bool)
    ensures
        r == distinct_seq(cards@),
{
    let mut i: usize = 0;
    while i < cards.len()
        invariant
            i <= cards@.len(),
            forall|k1: int, k2: int| 0 <= k1 < k2 < cards@.len() && k1 < i ==> cards@[k1]
                != cards@[k2],
        decreases cards@.len() - i,
    {
        let mut j: usize = i + 1;
        while j < cards.len()
            invariant
                i < cards@.len(),
                i + 1 <= j <= cards@.len(),
                forall|k2: int| i < k2 < j ==> cards@[i as int] != cards@[k2],
            decreases cards@.len() - j,
        {
            if cards[i] == cards[j] {
                return false;
            }
            j += 1;
        }
        i += 1;
    }
    true
}

} // verus!
