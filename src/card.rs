//! The four cardinal directions and sets of them.

use vstd::prelude::*;

verus! {

/// One of the four cardinal directions of the plane.
#[derive(Clone, Copy, Debug, PartialEq, Eq, PartialOrd, Ord, Hash, Structural)]
pub enum Card {
    /// Negative X direction.
    MinusX,
    /// Negative Y direction.
    MinusY,
    /// Positive X direction.
    PlusX,
    /// Positive Y direction.
    PlusY,
}

/// The opposite direction.
pub open spec fn flip_spec(c: Card) -> Card {
    match c {
        Card::MinusX => Card::PlusX,
        Card::PlusX => Card::MinusX,
        Card::MinusY => Card::PlusY,
        Card::PlusY => Card::MinusY,
    }
}

/// Position of a direction in `Card::values()` and in a `CardMask`.
pub open spec fn card_index(c: Card) -> int {
    match c {
        Card::MinusX => 0,
        Card::MinusY => 1,
        Card::PlusX => 2,
        Card::PlusY => 3,
    }
}

/// The direction at position `i` of `Card::values()`.
pub open spec fn card_at(i: int) -> Card {
    if i == 0 {
        Card::MinusX
    } else if i == 1 {
        Card::MinusY
    } else if i == 2 {
        Card::PlusX
    } else {
        Card::PlusY
    }
}

impl Card {
    /// Returns the opposite direction.
    pub fn flip(self) -> (r: Card)
        ensures
            r == flip_spec(self),
            flip_spec(r) == self,
    {
        match self {
            Card::MinusX => Card::PlusX,
            Card::PlusX => Card::MinusX,
            Card::MinusY => Card::PlusY,
            Card::PlusY => Card::MinusY,
        }
    }

    /// Returns all four directions, in the order of `card_index`.
    pub fn values() -> (r: [Card; 4])
        ensures
            forall|i: int| 0 <= i < 4 ==> #[trigger] r@[i] == card_at(i),
            forall|i: int| 0 <= i < 4 ==> card_index(#[trigger] r@[i]) == i,
    {
        [Card::MinusX, Card::MinusY, Card::PlusX, Card::PlusY]
    }

    /// Position of this direction in `Card::values()`.
    pub fn index(self) -> (r: usize)
        ensures
            r == card_index(self),
            r < 4,
    {
        match self {
            Card::MinusX => 0,
            Card::MinusY => 1,
            Card::PlusX => 2,
            Card::PlusY => 3,
        }
    }
}

/// A subset of the four directions, typically the directions allowed for a
/// normal vector.
#[derive(Clone, Copy, Debug, PartialEq, Eq, PartialOrd, Ord, Hash)]
pub struct CardMask {
    pub flags: [bool; 4],
}

impl CardMask {
    /// Whether the mask holds the direction `c`.
    pub open spec fn has(self, c: Card) -> bool {
        self.flags@[card_index(c)]
    }

    /// A mask with no direction.
    pub fn empty() -> (r: CardMask)
        ensures
            forall|c: Card| !r.has(c),
    {
        CardMask { flags: [false, false, false, false] }
    }

    /// A mask with all four directions.
    pub fn full() -> (r: CardMask)
        ensures
            forall|c: Card| r.has(c),
    {
        CardMask { flags: [true, true, true, true] }
    }

    /// The mask that holds exactly `card`.
    pub fn from_card(card: Card) -> (r: CardMask)
        ensures
            forall|c: Card| r.has(c) == (c == card),
    {
        let mut r = CardMask::empty();
        r.set(card, true);
        r
    }

    /// Whether the mask holds `card`.
    pub fn get(&self, card: Card) -> (r: bool)
        ensures
            r == self.has(card),
    {
        self.flags[card.index()]
    }

    /// Adds `card` to the mask or removes it from it.
    pub fn set(&mut self, card: Card, value: bool)
        ensures
            final(self).has(card) == value,
            forall|c: Card| c != card ==> final(self).has(c) == old(self).has(c),
    {
        let i = card.index();
        self.flags[i] = value;
    }

    /// Whether the mask holds all four directions.
    pub fn is_full(&self) -> (r: bool)
        ensures
            r == (forall|c: Card| self.has(c)),
    {
        let r = self.flags[0] && self.flags[1] && self.flags[2] && self.flags[3];
        proof {
            if !r {
                if !self.flags@[0] {
                    assert(!self.has(Card::MinusX));
                } else if !self.flags@[1] {
                    assert(!self.has(Card::MinusY));
                } else if !self.flags@[2] {
                    assert(!self.has(Card::PlusX));
                } else {
                    assert(!self.has(Card::PlusY));
                }
            }
        }
        r
    }

    /// The mask with every direction replaced by its opposite.
    pub fn flip(self) -> (r: CardMask)
        ensures
            forall|c: Card| r.has(c) == self.has(flip_spec(c)),
    {
        let mut result = CardMask::empty();
        result.set(Card::PlusX, self.get(Card::MinusX));
        result.set(Card::MinusX, self.get(Card::PlusX));
        result.set(Card::PlusY, self.get(Card::MinusY));
        result.set(Card::MinusY, self.get(Card::PlusY));
        result
    }
}

} // verus!
