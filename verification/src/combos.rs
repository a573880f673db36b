//! Enumeration of all two-element subsets of an ordered card collection:
//! every unordered pair exactly once, earlier element first.

use vstd::prelude::*;
use crate::types::{Card, cards_valid};

verus! {

/// No element of `s` appears twice.
pub open spec fn distinct_seq<T>(s: Seq<T>) -> bool {
    forall|k1: int, k2: int| 0 <= k1 < k2 < s.len() ==> s[k1] != s[k2]
}

/// The pairs whose first element is `s[i]`: one for each later element of
/// `s`, in order.
pub open spec fn pair_row(s: Seq<Card>, i: int) -> Seq<(Card, Card)> {
    Seq::new((s.len() - i - 1) as nat, |j: int| (s[i], s[i + 1 + j]))
}

/// All pairs whose first element lies among the first `i` elements of `s`.
pub open spec fn pairs_upto(s: Seq<Card>, i: int) -> Seq<(Card, Card)>
    decreases i,
{
    if i <= 0 {
        Seq::empty()
    } else {
        pairs_upto(s, i - 1) + pair_row(s, i - 1)
    }
}

/// Every two-element subset of `s`, as the pair of its earlier and its later
/// element, ordered by first index and then by second index.
pub open spec fn all_pairs(s: Seq<Card>) -> Seq<(Card, Card)> {
    pairs_upto(s, s.len() as int)
}

/// Produce every two-card combination of `cards`, each exactly once.
pub fn card_pairs(cards: &Vec<Card>) -> (r: Vec<(Card, Card)>)
    ensures
        r@ == all_pairs(cards@),
{
    let n = cards.len();
    let mut r: Vec<(Card, Card)> = Vec::new();
    let mut i: usize = 0;
    while i < n
        invariant
            i <= n,
            n == cards@.len(),
            r@ == pairs_upto(cards@, i as int),
        decreases n - i,
    {
        let mut j: usize = i + 1;
        while j < n
            invariant
                i < n,
                n == cards@.len(),
                i + 1 <= j <= n,
                r@ == pairs_upto(cards@, i as int) + Seq::new(
                    (j - i - 1) as nat,
                    (|k: int| (cards@[i as int], cards@[i + 1 + k])),
                ),
            decreases n - j,
        {
            r.push((cards[i], cards[j]));
            assert(r@ =~= pairs_upto(cards@, i as int) + Seq::new(
                (j + 1 - i - 1) as nat,
                (|k: int| (cards@[i as int], cards@[i + 1 + k])),
            ));
            j += 1;
        }
        assert(Seq::new(
            (j - i - 1) as nat,
            (|k: int| (cards@[i as int], cards@[i + 1 + k])),
        ) =~= pair_row(cards@, i as int));
        i += 1;
        assert(r@ == pairs_upto(cards@, i as int));
    }
    r
}

/// Over a deck of valid cards, every enumerated pair is made of valid cards.
pub proof fn lemma_pairs_upto_valid(s: Seq<Card>, i: int)
    requires
        cards_valid(s),
        0 <= i <= s.len(),
    ensures
        forall|k: int| #![trigger pairs_upto(s, i)[k]] 0 <= k < pairs_upto(s, i).len()
            ==> pairs_upto(s, i)[k].0.valid() && pairs_upto(s, i)[k].1.valid(),
    decreases i,
{
    if i > 0 {
        lemma_pairs_upto_valid(s, i - 1);
        let p = pairs_upto(s, i - 1);
        let row = pair_row(s, i - 1);
        assert(pairs_upto(s, i) == p + row);
        assert forall|k: int| #![trigger pairs_upto(s, i)[k]] 0 <= k < pairs_upto(s, i).len()
            implies pairs_upto(s, i)[k].0.valid() && pairs_upto(s, i)[k].1.valid() by {
            if k < p.len() {
                assert(pairs_upto(s, i)[k] == p[k]);
            } else {
                let j = k - p.len();
                assert(pairs_upto(s, i)[k] == row[j]);
                assert(row[j] == (s[i - 1], s[i + j]));
            }
        }
    }
}

/// Twice the number of pairs drawn from the first `i` first-elements.
pub proof fn lemma_pairs_upto_len(s: Seq<Card>, i: int)
    requires
        0 <= i <= s.len(),
    ensures
        2 * pairs_upto(s, i).len() == i * (2 * s.len() - i - 1),
    decreases i,
{
    if i > 0 {
        lemma_pairs_upto_len(s, i - 1);
        assert(pairs_upto(s, i) == pairs_upto(s, i - 1) + pair_row(s, i - 1));
        assert(pair_row(s, i - 1).len() == s.len() - i);
        assert(2 * pairs_upto(s, i).len() == (i - 1) * (2 * s.len() - i) + 2 * (s.len() - i));
        assert((i - 1) * (2 * s.len() - i) + 2 * (s.len() - i) == i * (2 * s.len() - i - 1))
            by (nonlinear_arith);
    } else {
        assert(pairs_upto(s, i).len() == 0);
    }
}

/// The enumeration over `s` holds exactly C(|s|, 2) = |s| * (|s| - 1) / 2
/// pairs.
pub proof fn lemma_all_pairs_len(s: Seq<Card>)
    ensures
        2 * all_pairs(s).len() == s.len() * (s.len() as int - 1),
        all_pairs(s).len() == s.len() * (s.len() as int - 1) / 2,
{
    lemma_pairs_upto_len(s, s.len() as int);
    assert(s.len() as int * (2 * s.len() - s.len() as int - 1) == s.len() * (s.len() as int - 1))
        by (nonlinear_arith);
}

/// Over a distinct `s`, the first `i` rows of the enumeration repeat no
/// pair, and every pair they hold is two distinct cards of `s`, the first
/// drawn from the first `i` elements.
pub proof fn lemma_pairs_upto_distinct(s: Seq<Card>, i: int)
    requires
        distinct_seq(s),
        0 <= i <= s.len(),
    ensures
        distinct_seq(pairs_upto(s, i)),
        forall|k: int| #![trigger pairs_upto(s, i)[k]] 0 <= k < pairs_upto(s, i).len()
            ==> pairs_upto(s, i)[k].0 != pairs_upto(s, i)[k].1
                && s.subrange(0, i).contains(pairs_upto(s, i)[k].0)
                && s.contains(pairs_upto(s, i)[k].1),
    decreases i,
{
    if i > 0 {
        lemma_pairs_upto_distinct(s, i - 1);
        let p = pairs_upto(s, i - 1);
        let row = pair_row(s, i - 1);
        assert(pairs_upto(s, i) == p + row);
        assert forall|k: int| #![trigger pairs_upto(s, i)[k]] 0 <= k < pairs_upto(s, i).len()
            implies pairs_upto(s, i)[k].0 != pairs_upto(s, i)[k].1
                && s.subrange(0, i).contains(pairs_upto(s, i)[k].0)
                && s.contains(pairs_upto(s, i)[k].1) by {
            if k < p.len() {
                assert(pairs_upto(s, i)[k] == p[k]);
                let a = choose|a: int|
                    0 <= a < s.subrange(0, i - 1).len() && #[trigger] s.subrange(0, i - 1)[a]
                        == p[k].0;
                assert(s.subrange(0, i)[a] == p[k].0);
                assert(s.subrange(0, i).contains(p[k].0));
            } else {
                let j = k - p.len();
                assert(pairs_upto(s, i)[k] == row[j]);
                assert(row[j] == (s[i - 1], s[i + j]));
                assert(s[i - 1] != s[i + j]);
                assert(s.subrange(0, i)[i - 1] == s[i - 1]);
                assert(s.subrange(0, i).contains(s[i - 1]));
                assert(s.contains(s[i + j]));
            }
        }
        assert forall|k1: int, k2: int| 0 <= k1 < k2 < pairs_upto(s, i).len() implies pairs_upto(
            s,
            i,
        )[k1] != pairs_upto(s, i)[k2] by {
            if k2 < p.len() {
                assert(pairs_upto(s, i)[k1] == p[k1] && pairs_upto(s, i)[k2] == p[k2]);
            } else if k1 >= p.len() {
                let j1 = k1 - p.len();
                let j2 = k2 - p.len();
                assert(pairs_upto(s, i)[k1] == row[j1] && pairs_upto(s, i)[k2] == row[j2]);
                assert(row[j1].1 == s[i + j1] && row[j2].1 == s[i + j2]);
                assert(s[i + j1] != s[i + j2]);
            } else {
                let j2 = k2 - p.len();
                assert(pairs_upto(s, i)[k1] == p[k1] && pairs_upto(s, i)[k2] == row[j2]);
                let a = choose|a: int|
                    0 <= a < s.subrange(0, i - 1).len() && #[trigger] s.subrange(0, i - 1)[a]
                        == p[k1].0;
                assert(p[k1].0 == s[a]);
                assert(row[j2].0 == s[i - 1]);
                assert(s[a] != s[i - 1]);
            }
        }
    } else {
        assert(pairs_upto(s, i).len() == 0);
    }
}

/// Law: over a deck of d distinct cards the villain-hand enumeration yields
/// exactly C(d, 2) hands, pairwise distinct, each made of two distinct cards
/// drawn from the deck.
pub proof fn lemma_enumeration_correct(s: Seq<Card>)
    requires
        distinct_seq(s),
    ensures
        2 * all_pairs(s).len() == s.len() * (s.len() as int - 1),
        all_pairs(s).len() == s.len() * (s.len() as int - 1) / 2,
        distinct_seq(all_pairs(s)),
        forall|k: int| #![trigger all_pairs(s)[k]] 0 <= k < all_pairs(s).len() ==> all_pairs(s)[k].0
            != all_pairs(s)[k].1 && s.contains(all_pairs(s)[k].0) && s.contains(all_pairs(s)[k].1),
{
    lemma_all_pairs_len(s);
    lemma_pairs_upto_distinct(s, s.len() as int);
    assert(s.subrange(0, s.len() as int) =~= s);
}

} // verus!
