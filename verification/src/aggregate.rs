//! Aggregation of evaluated scenarios into per-category accumulators: for
//! each of the 169 canonical starting-hand categories, how many scenarios
//! fell in it and in how many of them the villain won. The villain's win
//! probability for a category is the ratio of the two counts; a category
//! whose total stays zero is structurally impossible.

use vstd::prelude::*;
use crate::types::{Beats, Card, PokerHand, spec_category, lemma_category_wf, lemma_index_in_range};

verus! {

/// The accumulator cell that a scenario's villain hand falls in.
pub open spec fn cat_idx(v: (Card, Card)) -> int {
    spec_category(v.0, v.1).spec_index()
}

/// Every scenario's villain hand is made of valid cards.
pub open spec fn outcomes_valid(os: Seq<Beats>) -> bool {
    forall|k: int| #![trigger os[k]] 0 <= k < os.len() ==> os[k].hand.0.valid()
        && os[k].hand.1.valid()
}

/// How many of the scenarios fall in cell `cat`.
pub open spec fn count_total(os: Seq<Beats>, cat: int) -> nat
    decreases os.len(),
{
    if os.len() == 0 {
        0
    } else {
        count_total(os.drop_last(), cat) + if cat_idx(os.last().hand) == cat {
            1nat
        } else {
            0nat
        }
    }
}

/// In how many of the scenarios of cell `cat` the villain won.
pub open spec fn count_win(os: Seq<Beats>, cat: int) -> nat
    decreases os.len(),
{
    if os.len() == 0 {
        0
    } else {
        count_win(os.drop_last(), cat) + if cat_idx(os.last().hand) == cat
            && os.last().villain_wins {
            1nat
        } else {
            0nat
        }
    }
}

/// The per-category accumulators: one win count and one total count for each
/// of the 169 cells, row-major over the 13 x 13 grid.
pub struct Equity {
    pub win: Vec<u64>,
    pub total: Vec<u64>,
}

impl Equity {
    /// Both tables cover exactly the 169 cells.
    pub open spec fn wf(self) -> bool {
        self.win@.len() == 169 && self.total@.len() == 169
    }

    /// The accumulators hold exactly the counts of `os`.
    pub open spec fn matches(self, os: Seq<Beats>) -> bool {
        self.wf() && forall|cat: int| #![auto] 0 <= cat < 169 ==> self.win@[cat] == count_win(
            os,
            cat,
        ) && self.total@[cat] == count_total(os, cat)
    }
}

/// Law: for every category, villain wins never exceed the scenarios counted
/// there, and neither exceeds the number of scenarios overall — so every
/// defined probability winCount / totalCount lies in [0, 1].
pub proof fn lemma_win_le_total(os: Seq<Beats>, cat: int)
    ensures
        count_win(os, cat) <= count_total(os, cat) <= os.len(),
    decreases os.len(),
{
    if os.len() > 0 {
        lemma_win_le_total(os.drop_last(), cat);
    }
}

/// The sum of the totals of the first `c` cells.
pub open spec fn sum_total_upto(os: Seq<Beats>, c: int) -> nat
    decreases c,
{
    if c <= 0 {
        0
    } else {
        sum_total_upto(os, c - 1) + count_total(os, c - 1)
    }
}

/// Over no scenarios every summed prefix is zero.
proof fn lemma_sum_total_empty(os: Seq<Beats>, c: int)
    requires
        os.len() == 0,
    ensures
        sum_total_upto(os, c) == 0,
    decreases c,
{
    if c > 0 {
        lemma_sum_total_empty(os, c - 1);
    }
}

/// Dropping the last scenario lowers the summed totals by one exactly when
/// its cell lies below `c`.
proof fn lemma_sum_total_step(os: Seq<Beats>, c: int)
    requires
        os.len() > 0,
    ensures
        sum_total_upto(os, c) == sum_total_upto(os.drop_last(), c) + if 0 <= cat_idx(
            os.last().hand,
        ) < c {
            1nat
        } else {
            0nat
        },
    decreases c,
{
    if c > 0 {
        lemma_sum_total_step(os, c - 1);
    }
}

/// Law: the 169 category totals partition the evaluated scenarios — their
/// sum equals the number of scenarios.
pub proof fn lemma_totals_partition(os: Seq<Beats>)
    requires
        outcomes_valid(os),
    ensures
        sum_total_upto(os, 169) == os.len(),
    decreases os.len(),
{
    if os.len() > 0 {
        assert forall|k: int| 0 <= k < os.drop_last().len() implies #[trigger] os.drop_last()[k].hand.0.valid()
            && os.drop_last()[k].hand.1.valid() by {
            assert(os.drop_last()[k] == os[k]);
        }
        lemma_totals_partition(os.drop_last());
        lemma_sum_total_step(os, 169);
        lemma_category_wf(os.last().hand.0, os.last().hand.1);
        lemma_index_in_range(spec_category(os.last().hand.0, os.last().hand.1));
    } else {
        lemma_sum_total_empty(os, 169);
    }
}

/// Law: aggregation is a pure function of the scenarios — two accumulator
/// values that match the same scenario sequence hold identical counts, so
/// re-evaluating the same query reproduces the same equity samples.
pub proof fn lemma_aggregation_deterministic(g1: Equity, g2: Equity, os: Seq<Beats>)
    requires
        g1.matches(os),
        g2.matches(os),
    ensures
        g1.win@ == g2.win@,
        g1.total@ == g2.total@,
{
    assert forall|cat: int| 0 <= cat < 169 implies g1.win@[cat] == g2.win@[cat] && g1.total@[cat]
        == g2.total@[cat] by {
        assert(g1.win@[cat] == count_win(os, cat) && g2.win@[cat] == count_win(os, cat));
        assert(g1.total@[cat] == count_total(os, cat) && g2.total@[cat] == count_total(os, cat));
    }
    assert(g1.win@ =~= g2.win@);
    assert(g1.total@ =~= g2.total@);
}

/// Fold every scenario into the 169-cell accumulators.
pub fn prob_calc(outcomes: &Vec<Beats>) -> (r: Equity)
    requires
        outcomes_valid(outcomes@),
    ensures
        r.matches(outcomes@),
{
    let mut win: Vec<u64> = Vec::new();
    let mut total: Vec<u64> = Vec::new();
    let mut c: usize = 0;
    while c < 169
        invariant
            c <= 169,
            win@.len() == c,
            total@.len() == c,
            forall|x: int| #![auto] 0 <= x < c ==> win@[x] == 0 && total@[x] == 0,
        decreases 169 - c,
    {
        win.push(0);
        total.push(0);
        c += 1;
    }
    assert(forall|cat: int| #![auto] 0 <= cat < 169 ==> count_total(outcomes@.take(0), cat) == 0
        && count_win(outcomes@.take(0), cat) == 0);
    let mut idx: usize = 0;
    while idx < outcomes.len()
        invariant
            idx <= outcomes@.len(),
            outcomes_valid(outcomes@),
            win@.len() == 169,
            total@.len() == 169,
            forall|cat: int| #![auto] 0 <= cat < 169 ==> win@[cat] == count_win(
                outcomes@.take(idx as int),
                cat,
            ) && total@[cat] == count_total(outcomes@.take(idx as int), cat),
        decreases outcomes@.len() - idx,
    {
        let o = outcomes[idx];
        let h = PokerHand::new(o.hand);
        proof {
            lemma_category_wf(o.hand.0, o.hand.1);
            lemma_index_in_range(spec_category(o.hand.0, o.hand.1));
        }
        let (gr, gc) = h.grid_pos();
        let cell = (gr as usize) * 13 + (gc as usize);
        proof {
            lemma_win_le_total(outcomes@.take(idx as int), cell as int);
            assert(outcomes@.take(idx as int).len() == idx);
            assert(outcomes@.take(idx as int + 1).drop_last() =~= outcomes@.take(idx as int));
            assert(outcomes@.take(idx as int + 1).last() == outcomes@[idx as int]);
        }
        let t = total[cell];
        total.set(cell, t + 1);
        if o.villain_wins {
            let w = win[cell];
            win.set(cell, w + 1);
        }
        assert forall|cat: int| 0 <= cat < 169 implies win@[cat] == count_win(
            outcomes@.take(idx as int + 1),
            cat,
        ) && total@[cat] == count_total(outcomes@.take(idx as int + 1), cat) by {
            assert(count_total(outcomes@.take(idx as int + 1), cat) == count_total(
                outcomes@.take(idx as int),
                cat,
            ) + if cat_idx(outcomes@[idx as int].hand) == cat {
                1nat
            } else {
                0nat
            });
            assert(count_win(outcomes@.take(idx as int + 1), cat) == count_win(
                outcomes@.take(idx as int),
                cat,
            ) + if cat_idx(outcomes@[idx as int].hand) == cat && outcomes@[idx as int].villain_wins {
                1nat
            } else {
                0nat
            });
        }
        idx += 1;
    }
    assert(outcomes@.take(outcomes@.len() as int) =~= outcomes@);
    Equity { win, total }
}

} // verus!
