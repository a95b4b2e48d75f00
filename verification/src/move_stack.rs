//! The move model: a typed description of a card transfer between stacks.

use vstd::prelude::*;

verus! {

/// The kinds of stacks a card can be taken from or placed onto.
#[derive(PartialEq, Eq, Structural, Debug, Copy, Clone)]
pub enum CardStack {
    /// The acting player's private draw stack.
    Stack,
    /// One of the acting player's four discard side stacks.
    Side,
    /// The acting player's hand.
    Hand,
    /// One of the four shared field stacks.
    Field,
}

/// An immutable description of one card transfer. `from_num` picks the
/// hand slot or side stack the card leaves (it is `0` and meaningless for
/// the draw stack); `to_num` picks the destination field or side stack.
#[derive(PartialEq, Eq, Structural, Debug, Copy, Clone)]
pub struct Move {
    pub from: CardStack,
    pub from_num: i8,
    pub to: CardStack,
    pub to_num: i8,
}

} // verus!
