//! Cards: a value, one of two colors, and whether the value is shown.

use vstd::prelude::*;

verus! {

/// The two card colors. On equal values a black card sorts first.
#[derive(Debug, Clone, Copy, PartialEq, Eq, Structural)]
pub enum Color {
    BLACK,
    WHITE,
}

/// Whether a card's value is visible to every participant.
#[derive(Debug, Clone, Copy, PartialEq, Eq, Structural)]
pub enum CardStatus {
    HIDDEN,
    REVEALED,
}

/// A card: identity `(value, color)` plus its visibility.
#[derive(Debug, Clone, Copy, PartialEq, Eq, Structural)]
pub struct Card {
    pub color: Color,
    pub value: u32,
    pub status: CardStatus,
}

/// Two cards have the same identity: equal value and equal color.
pub open spec fn same_key(a: Card, b: Card) -> bool {
    a.value == b.value && a.color == b.color
}

/// Hand order: ascending value, black before white on equal values.
pub open spec fn card_le(a: Card, b: Card) -> bool {
    a.value < b.value || (a.value == b.value && (a.color == Color::BLACK || b.color == Color::WHITE))
}

/// Strictly before in hand order.
pub open spec fn card_lt(a: Card, b: Card) -> bool {
    !card_le(b, a)
}

/// A sequence is ordered by `card_le`.
pub open spec fn sorted(s: Seq<Card>) -> bool {
    forall|i: int, j: int| 0 <= i < j < s.len() ==> card_le(#[trigger] s[i], #[trigger] s[j])
}

/// No two cards of the sequence share an identity.
pub open spec fn keys_unique(s: Seq<Card>) -> bool {
    forall|i: int, j: int|
        0 <= i < s.len() && 0 <= j < s.len() && i != j ==> !same_key(#[trigger] s[i], #[trigger] s[j])
}

/// Every card of the sequence is revealed.
pub open spec fn all_revealed(s: Seq<Card>) -> bool {
    forall|i: int| 0 <= i < s.len() ==> (#[trigger] s[i]).status == CardStatus::REVEALED
}

impl Card {
    /// A hidden card of the given value and color.
    pub fn new(value: u32, color: Color) -> (r: Card)
        ensures
            r == (Card { color, value, status: CardStatus::HIDDEN }),
    {
        Card { color, value, status: CardStatus::HIDDEN }
    }

    /// Whether `self` comes strictly before `other` in hand order.
    pub fn precedes(&self, other: &Card) -> (r: bool)
        ensures
            r == card_lt(*self, *other),
    {
        if self.value != other.value {
            self.value < other.value
        } else {
            self.color == Color::BLACK && other.color == Color::WHITE
        }
    }
}

} // verus!
