//! The stack-only baseline strategy: plays only draw-stack moves.

use vstd::prelude::*;
use crate::move_stack::{Move, CardStack};
use crate::players::Player;
use crate::simple_player::{fewest_cards_side, min_side_index};

verus! {

/// Plays the first legal move only when it comes from the draw stack;
/// otherwise declines, forcing a discard.
pub struct BadPlayer {}

impl Player for BadPlayer {
    fn select_move(
        &self,
        moves: &Vec<Move>,
        stack: i8,
        opponent_stack: i8,
        side: &[Vec<i8>; 4],
        hand: &Vec<i8>,
        playing_field: &[(i8, bool); 4],
    ) -> (r: Option<Move>)
        ensures
            r == if moves@[0].from == CardStack::Stack {
                Some(moves@[0])
            } else {
                None::<Move>
            },
    {
        let m = moves[0];
        if m.from == CardStack::Stack {
            Some(Move { from: m.from, from_num: m.from_num, to: m.to, to_num: m.to_num })
        } else {
            None
        }
    }

    fn select_stack(&self, hand: &Vec<i8>, side: &[Vec<i8>; 4]) -> (r: Move)
        ensures
            r == (Move {
                from: CardStack::Hand,
                from_num: 0,
                to: CardStack::Side,
                to_num: min_side_index(side@) as i8,
            }),
    {
        let index_of_min = fewest_cards_side(side);
        Move { from: CardStack::Hand, from_num: 0, to: CardStack::Side, to_num: index_of_min as i8 }
    }
}

} // verus!
