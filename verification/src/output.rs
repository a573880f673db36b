//! Construction of the presentable 13 x 13 grid: one cell per canonical
//! starting-hand category, holding the category's label, its counts, its
//! rendered text, and a severity color for downstream rendering. Terminal
//! drawing itself stays outside this crate.

use vstd::prelude::*;
use crate::types::{PokerHand, Suited};
use crate::aggregate::Equity;

verus! {

/// The severity color of a cell: yellow (11) for an impossible category,
/// blue (4) for a villain win rate of at least 0.50, white (7) for at least
/// 0.33, red (1) below that.
pub open spec fn spec_cell_color(win: int, total: int) -> u32 {
    if total == 0 {
        11
    } else if 100 * win >= 50 * total {
        4
    } else if 100 * win >= 33 * total {
        7
    } else {
        1
    }
}

/// Pick a cell's severity color from its counts.
pub fn cell_color(win: u64, total: u64) -> (c: u32)
    ensures
        c == spec_cell_color(win as int, total as int),
{
    if total == 0 {
        11
    } else if 100 * (win as u128) >= 50 * (total as u128) {
        4
    } else if 100 * (win as u128) >= 33 * (total as u128) {
        7
    } else {
        1
    }
}

/// The character that renders a rank.
pub open spec fn spec_rank_char(r: int) -> char {
    if r == 0 {
        '2'
    } else if r == 1 {
        '3'
    } else if r == 2 {
        '4'
    } else if r == 3 {
        '5'
    } else if r == 4 {
        '6'
    } else if r == 5 {
        '7'
    } else if r == 6 {
        '8'
    } else if r == 7 {
        '9'
    } else if r == 8 {
        'T'
    } else if r == 9 {
        'J'
    } else if r == 10 {
        'Q'
    } else if r == 11 {
        'K'
    } else {
        'A'
    }
}

/// A category's label: both rank characters, then `s` for suited and `o`
/// for offsuit.
pub open spec fn spec_label(h: PokerHand) -> Seq<char> {
    seq![
        spec_rank_char(h.a as int),
        spec_rank_char(h.b as int),
        match h.s {
            Suited::On => 's',
            Suited::Off => 'o',
        },
    ]
}

/// The one-character rendering of a rank.
fn rank_str(r: u8) -> (s: &'static str)
    requires
        r < 13,
    ensures
        s@ == seq![spec_rank_char(r as int)],
{
    proof {
        reveal_strlit("2");
        reveal_strlit("3");
        reveal_strlit("4");
        reveal_strlit("5");
        reveal_strlit("6");
        reveal_strlit("7");
        reveal_strlit("8");
        reveal_strlit("9");
        reveal_strlit("T");
        reveal_strlit("J");
        reveal_strlit("Q");
        reveal_strlit("K");
        reveal_strlit("A");
    }
    match r {
        0 => "2",
        1 => "3",
        2 => "4",
        3 => "5",
        4 => "6",
        5 => "7",
        6 => "8",
        7 => "9",
        8 => "T",
        9 => "J",
        10 => "Q",
        11 => "K",
        _ => "A",
    }
}

impl PokerHand {
    /// Render the category's label, such as `AKs` or `72o`.
    pub fn to_string(&self) -> (s: String)
        requires
            self.wf(),
        ensures
            s@ == spec_label(*self),
    {
        let ra = String::from_str(rank_str(self.a));
        let rb = rank_str(self.b);
        let su = match self.s {
            Suited::On => "s",
            Suited::Off => "o",
        };
        proof {
            reveal_strlit("s");
            reveal_strlit("o");
        }
        let s = ra.concat(rb).concat(su);
        assert(s@ =~= spec_label(*self));
        s
    }
}

/// The character that renders a decimal digit.
pub open spec fn spec_digit_char(d: int) -> char {
    if d == 0 {
        '0'
    } else if d == 1 {
        '1'
    } else if d == 2 {
        '2'
    } else if d == 3 {
        '3'
    } else if d == 4 {
        '4'
    } else if d == 5 {
        '5'
    } else if d == 6 {
        '6'
    } else if d == 7 {
        '7'
    } else if d == 8 {
        '8'
    } else {
        '9'
    }
}

/// The one-character rendering of a digit.
fn digit_str(d: u64) -> (s: &'static str)
    requires
        d < 10,
    ensures
        s@ == seq![spec_digit_char(d as int)],
{
    proof {
        reveal_strlit("0");
        reveal_strlit("1");
        reveal_strlit("2");
        reveal_strlit("3");
        reveal_strlit("4");
        reveal_strlit("5");
        reveal_strlit("6");
        reveal_strlit("7");
        reveal_strlit("8");
        reveal_strlit("9");
    }
    match d {
        0 => "0",
        1 => "1",
        2 => "2",
        3 => "3",
        4 => "4",
        5 => "5",
        6 => "6",
        7 => "7",
        8 => "8",
        _ => "9",
    }
}

/// A probability rendered to two decimals, the ratio rounded half up to the
/// nearest hundredth.
pub open spec fn spec_prob_chars(win: int, total: int) -> Seq<char> {
    let v = (200 * win + total) / (2 * total);
    if v >= 100 {
        seq!['1', '.', '0', '0']
    } else {
        seq!['0', '.', spec_digit_char(v / 10), spec_digit_char(v % 10)]
    }
}

/// A cell's rendered text: an impossibility marker when the category cannot
/// occur, else the label and the villain's win probability.
pub open spec fn spec_cell_text(h: PokerHand, win: int, total: int) -> Seq<char> {
    if total == 0 {
        seq!['N', 'o', 't', '\n', 'P', 'o', 's', 's']
    } else {
        spec_label(h) + seq![':', '\n'] + spec_prob_chars(win, total)
    }
}

/// Render one cell's text from its category and counts.
pub fn grid_string(h: &PokerHand, win: u64, total: u64) -> (s: String)
    requires
        h.wf(),
    ensures
        s@ == spec_cell_text(*h, win as int, total as int),
{
    if total == 0 {
        let s = String::from_str("Not\nPoss");
        proof {
            reveal_strlit("Not\nPoss");
        }
        assert(s@ =~= seq!['N', 'o', 't', '\n', 'P', 'o', 's', 's']);
        s
    } else {
        let v128: u128 = (200u128 * (win as u128) + (total as u128)) / (2u128 * (total as u128));
        proof {
            reveal_strlit(":\n");
            reveal_strlit("1.00");
            reveal_strlit("0.");
        }
        let label = self_label(h);
        if v128 >= 100 {
            let s = label.concat(":\n").concat("1.00");
            assert(s@ =~= spec_cell_text(*h, win as int, total as int));
            s
        } else {
            let v = v128 as u64;
            let s = label.concat(":\n").concat("0.").concat(digit_str(v / 10)).concat(
                digit_str(v % 10),
            );
            assert(s@ =~= spec_cell_text(*h, win as int, total as int));
            s
        }
    }
}

/// The category's label, taken by reference.
fn self_label(h: &PokerHand) -> (s: String)
    requires
        h.wf(),
    ensures
        s@ == spec_label(*h),
{
    h.to_string()
}

/// The category that a grid position renders: suited hands below the
/// diagonal, offsuit hands above it, pairs on it, ranks descending from the
/// ace at position zero.
pub open spec fn spec_cell_hand(i: int, j: int) -> PokerHand {
    if i > j {
        PokerHand { a: (12 - j) as u8, b: (12 - i) as u8, s: Suited::On }
    } else {
        PokerHand { a: (12 - i) as u8, b: (12 - j) as u8, s: Suited::Off }
    }
}

/// One cell of the presentable grid.
pub struct GridCell {
    pub hand: PokerHand,
    pub win: u64,
    pub total: u64,
    pub color: u32,
    pub text: String,
}

impl GridCell {
    /// The cell renders position (i, j) of the accumulators faithfully.
    pub open spec fn renders(self, eq: Equity, i: int, j: int) -> bool {
        self.hand == spec_cell_hand(i, j) && self.win == eq.win@[i * 13 + j] && self.total
            == eq.total@[i * 13 + j] && self.color == spec_cell_color(
            self.win as int,
            self.total as int,
        ) && self.text@ == spec_cell_text(self.hand, self.win as int, self.total as int)
    }
}

/// Assemble the 13 x 13 grid of cells from the per-category accumulators.
pub fn pretty_print(probs: &Equity) -> (r: Vec<Vec<GridCell>>)
    requires
        probs.wf(),
    ensures
        r@.len() == 13,
        forall|i: int| #![trigger r@[i]] 0 <= i < 13 ==> r@[i]@.len() == 13 && forall|j: int|
            0 <= j < 13 ==> #[trigger] r@[i]@[j].renders(*probs, i, j),
{
    let mut rows: Vec<Vec<GridCell>> = Vec::new();
    let mut i: usize = 0;
    while i < 13
        invariant
            i <= 13,
            probs.wf(),
            rows@.len() == i,
            forall|x: int| #![trigger rows@[x]] 0 <= x < i ==> rows@[x]@.len() == 13 && forall|
                j: int,
            | 0 <= j < 13 ==> #[trigger] rows@[x]@[j].renders(*probs, x, j),
        decreases 13 - i,
    {
        let mut row: Vec<GridCell> = Vec::new();
        let mut j: usize = 0;
        while j < 13
            invariant
                i < 13,
                j <= 13,
                probs.wf(),
                row@.len() == j,
                forall|y: int| 0 <= y < j ==> #[trigger] row@[y].renders(*probs, i as int, y),
            decreases 13 - j,
        {
            let hand = if i > j {
                PokerHand { a: 12 - (j as u8), b: 12 - (i as u8), s: Suited::On }
            } else {
                PokerHand { a: 12 - (i as u8), b: 12 - (j as u8), s: Suited::Off }
            };
            let win = probs.win[i * 13 + j];
            let total = probs.total[i * 13 + j];
            let color = cell_color(win, total);
            let text = grid_string(&hand, win, total);
            row.push(GridCell { hand, win, total, color, text });
            j += 1;
        }
        rows.push(row);
        i += 1;
    }
    rows
}

} // verus!
