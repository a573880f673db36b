//! The card universe, canonical starting-hand categories, per-scenario
//! outcomes, and the input-validation error kinds.

use vstd::prelude::*;

verus! {

/// A playing card: a rank (0 = Two .. 12 = Ace) and a suit
/// (0 = spades, 1 = clubs, 2 = hearts, 3 = diamonds).
#[derive(PartialEq, Eq, Structural, Copy, Clone, Debug)]
pub struct Card {
    pub rank: u8,
    pub suit: u8,
}

impl Card {
    /// A card is valid when its rank and suit lie inside the 13 x 4 universe.
    pub open spec fn valid(self) -> bool {
        self.rank < 13 && self.suit < 4
    }
}

/// Every card of `s` is valid.
pub open spec fn cards_valid(s: Seq<Card>) -> bool {
    forall|k: int| #![trigger s[k]] 0 <= k < s.len() ==> s[k].valid()
}

/// Whether the two hole cards of a starting hand share a suit.
#[derive(PartialEq, Eq, Structural, Copy, Clone, Debug)]
pub enum Suited {
    On,
    Off,
}

/// A canonical starting-hand category: the two hole ranks ordered high to
/// low, plus whether the hand is suited. Exactly 169 such categories exist.
#[derive(PartialEq, Eq, Structural, Copy, Clone, Debug)]
pub struct PokerHand {
    pub a: u8,
    pub b: u8,
    pub s: Suited,
}

/// One evaluated scenario: the villain's two hole cards, and whether the
/// villain's completed hand strictly outranks the hero's. A tie is recorded
/// as the villain not winning.
#[derive(Copy, Clone, Debug)]
pub struct Beats {
    pub hand: (Card, Card),
    pub villain_wins: bool,
}

/// The recoverable input-validation errors.
#[derive(PartialEq, Eq, Structural, Copy, Clone, Debug)]
pub enum InputError {
    /// A card token's rank or suit character could not be read.
    MalformedCardToken,
    /// The hole-card input does not hold exactly two cards.
    WrongHandLength,
    /// The board input does not hold the number of cards its street asks for.
    WrongBoardLength,
    /// A card appears more than once across the hand and the board.
    DuplicateCard,
}

/// The category that an unordered pair of hole cards falls in: ranks ordered
/// descending, suited exactly when the suits agree.
pub open spec fn spec_category(x: Card, y: Card) -> PokerHand {
    PokerHand {
        a: if x.rank >= y.rank {
            x.rank
        } else {
            y.rank
        },
        b: if x.rank >= y.rank {
            y.rank
        } else {
            x.rank
        },
        s: if x.suit == y.suit {
            Suited::On
        } else {
            Suited::Off
        },
    }
}

impl PokerHand {
    /// Well-formed: ranks inside the universe and ordered high to low.
    pub open spec fn wf(self) -> bool {
        self.b <= self.a < 13
    }

    /// The 13 x 13 grid position of this category: suited hands mirror
    /// offsuit hands across the diagonal, pairs sit on it, and rank runs
    /// descending (Ace at index 0 of its own axis).
    pub open spec fn spec_grid_pos(self) -> (u8, u8) {
        match self.s {
            Suited::On => ((12 - self.b) as u8, (12 - self.a) as u8),
            Suited::Off => ((12 - self.a) as u8, (12 - self.b) as u8),
        }
    }

    /// The category's cell in the 169-entry accumulator, row-major over the
    /// 13 x 13 grid.
    pub open spec fn spec_index(self) -> int {
        self.spec_grid_pos().0 * 13 + self.spec_grid_pos().1
    }

    /// Canonicalize a physical two-card hand.
    pub fn new(hand: (Card, Card)) -> (r: PokerHand)
        ensures
            r == spec_category(hand.0, hand.1),
    {
        let a: u8 = hand.0.rank;
        let b: u8 = hand.1.rank;
        let s: Suited = if hand.0.suit == hand.1.suit {
            Suited::On
        } else {
            Suited::Off
        };
        if a >= b {
            PokerHand { a, b, s }
        } else {
            PokerHand { a: b, b: a, s }
        }
    }

    /// The category's position in the 13 x 13 grid.
    pub fn grid_pos(&self) -> (p: (u8, u8))
        requires
            self.wf(),
        ensures
            p == self.spec_grid_pos(),
    {
        match self.s {
            Suited::On => (12 - self.b, 12 - self.a),
            Suited::Off => (12 - self.a, 12 - self.b),
        }
    }
}

impl Default for PokerHand {
    /// The placeholder category of an empty grid cell: the ace pair.
    fn default() -> (r: Self)
        ensures
            r == (PokerHand { a: 12, b: 12, s: Suited::On }),
    {
        PokerHand { a: 12, b: 12, s: Suited::On }
    }
}

/// Law: category assignment ignores the order in which the two cards are
/// given.
pub proof fn lemma_category_order_invariant(x: Card, y: Card)
    ensures
        spec_category(x, y) == spec_category(y, x),
{
}

/// A canonical category is well formed whenever its two cards are valid.
pub proof fn lemma_category_wf(x: Card, y: Card)
    requires
        x.valid(),
        y.valid(),
    ensures
        spec_category(x, y).wf(),
{
}

/// A well-formed category's accumulator cell lies inside the 169-entry range.
pub proof fn lemma_index_in_range(h: PokerHand)
    requires
        h.wf(),
    ensures
        0 <= h.spec_index() < 169,
{
}

} // verus!
