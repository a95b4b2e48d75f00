//! The greedy-first strategy: always plays the first legal move.

use vstd::prelude::*;
use crate::move_stack::{Move, CardStack};
use crate::players::Player;

verus! {

/// Index of the side stack the Simple and Bad strategies discard to:
/// the first stack with the fewest cards.
pub open spec fn min_side_index(side: Seq<Vec<i8>>) -> int {
    let a = if side[1]@.len() < side[0]@.len() { 1int } else { 0int };
    let b = if side[2]@.len() < side[a]@.len() { 2int } else { a };
    if side[3]@.len() < side[b]@.len() { 3int } else { b }
}

/// Picks the first side stack holding the fewest cards: ties go to the
/// lowest index.
pub fn fewest_cards_side(side: &[Vec<i8>; 4]) -> (r: usize)
    ensures
        r == min_side_index(side@),
        0 <= r < 4,
        forall|j: int| 0 <= j < 4 ==> side@[r as int]@.len() <= #[trigger] side@[j]@.len(),
        forall|j: int| 0 <= j < r ==> side@[j]@.len() > side@[r as int]@.len(),
{
    let mut best: usize = 0;
    if side[1].len() < side[best].len() {
        best = 1;
    }
    if side[2].len() < side[best].len() {
        best = 2;
    }
    if side[3].len() < side[best].len() {
        best = 3;
    }
    best
}

/// Always plays the first legal move, and discards `hand[0]` to the side
/// stack with the fewest cards.
pub struct SimplePlayer {}

impl Player for SimplePlayer {
    fn select_move(
        &self,
        moves: &Vec<Move>,
        stack: i8,
        opponent_stack: i8,
        side: &[Vec<i8>; 4],
        hand: &Vec<i8>,
        playing_field: &[(i8, bool); 4],
    ) -> (r: Option<Move>)
        ensures
            r == Some(moves@[0]),
    {
        let m = moves[0];
        Some(Move { from: m.from, from_num: m.from_num, to: m.to, to_num: m.to_num })
    }

    fn select_stack(&self, hand: &Vec<i8>, side: &[Vec<i8>; 4]) -> (r: Move)
        ensures
            r == (Move {
                from: CardStack::Hand,
                from_num: 0,
                to: CardStack::Side,
                to_num: min_side_index(side@) as i8,
            }),
    {
        let index_of_min = fewest_cards_side(side);
        Move { from: CardStack::Hand, from_num: 0, to: CardStack::Side, to_num: index_of_min as i8 }
    }
}

} // verus!
