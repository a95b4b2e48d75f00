//! Per-player state and the strategy interface.

use vstd::prelude::*;
use crate::cards::{is_card, valid_cards, valid_top, can_place, JOKER};
use crate::move_stack::{Move, CardStack};
use crate::rng::{fresh_rng, gen_range_i8};

verus! {

/// What one player owns: a hand, four discard side stacks, and the
/// private draw stack whose exhaustion wins the game.
pub struct PlayerState {
    pub hand: Vec<i8>,
    pub side: [Vec<i8>; 4],
    pub stack: Vec<i8>,
}

impl PlayerState {
    /// Every card the player owns is a well-formed card value.
    pub open spec fn wf(&self) -> bool {
        &&& valid_cards(self.hand@)
        &&& valid_cards(self.stack@)
        &&& forall|i: int| 0 <= i < 4 ==> valid_cards(#[trigger] self.side@[i]@)
    }
}

/// Draws one card of the full deal range: a raw draw of `13` from the
/// range `1..=13` is remapped to the Joker, so the Joker comes up with
/// probability one in thirteen.
pub fn draw_deal_card(rng: &mut rand::rngs::ThreadRng) -> (c: i8)
    ensures
        is_card(c),
{
    let raw = gen_range_i8(rng, 1, 14);
    if raw == 13 {
        JOKER
    } else {
        raw
    }
}

/// Constructor interface for a freshly dealt player.
pub trait NewPlayerState: Sized {
    fn new(stack_size: i32) -> Self;
}

impl NewPlayerState for PlayerState {
    /// Deals a draw stack of `stack_size` cards and a hand of five, all
    /// from the same remapped `1..=13` draw (so Jokers come up in both),
    /// and four empty side stacks.
    fn new(stack_size: i32) -> (r: Self)
        ensures
            r.wf(),
            r.stack@.len() == if stack_size >= 0 {
                stack_size as int
            } else {
                0
            },
            r.hand@.len() == 5,
            forall|i: int| 0 <= i < 5 ==> is_card(#[trigger] r.hand@[i]),
            forall|i: int| 0 <= i < 4 ==> (#[trigger] r.side@[i])@.len() == 0,
    {
        let mut rng = fresh_rng();

        let mut stack: Vec<i8> = Vec::new();
        let mut i: i32 = 0;
        while i < stack_size
            invariant
                0 <= i,
                stack_size >= 0 ==> i <= stack_size,
                stack_size < 0 ==> i == 0,
                stack@.len() == i as int,
                valid_cards(stack@),
            decreases stack_size - i,
        {
            let c = draw_deal_card(&mut rng);
            stack.push(c);
            i = i + 1;
        }

        let mut hand: Vec<i8> = Vec::new();
        let mut j: usize = 0;
        while j < 5
            invariant
                j <= 5,
                hand@.len() == j as int,
                forall|k: int| 0 <= k < j ==> is_card(#[trigger] hand@[k]),
            decreases 5 - j,
        {
            let c = draw_deal_card(&mut rng);
            hand.push(c);
            j = j + 1;
        }

        PlayerState {
            hand,
            side: [Vec::new(), Vec::new(), Vec::new(), Vec::new()],
            stack,
        }
    }
}

/// The move can be applied to the player's current state without hitting
/// an empty source or a missing slot: the fatal invariant violations the
/// engine refuses.
pub open spec fn move_executable(m: Move, p: PlayerState, field: Seq<(i8, bool)>) -> bool {
    match (m.from, m.to) {
        (CardStack::Stack, CardStack::Field) => 0 <= m.to_num < 4 && m.from_num == 0
            && p.stack@.len() > 0,
        (CardStack::Hand, CardStack::Field) => 0 <= m.to_num < 4 && 0 <= m.from_num
            < p.hand@.len(),
        (CardStack::Hand, CardStack::Side) => 0 <= m.to_num < 4 && 0 <= m.from_num
            < p.hand@.len(),
        (CardStack::Side, CardStack::Field) => 0 <= m.to_num < 4 && 0 <= m.from_num < 4
            && p.side@[m.from_num as int]@.len() > 0,
        _ => false,
    }
}

/// The card a candidate field move would transfer, read from the hand
/// slot, the side-stack top, or the given draw-stack top.
pub open spec fn candidate_card(m: Move, hand: Seq<i8>, side: Seq<Vec<i8>>, stack_top: i8) -> i8 {
    match m.from {
        CardStack::Stack => stack_top,
        CardStack::Hand => hand[m.from_num as int],
        CardStack::Side => side[m.from_num as int]@.last(),
        CardStack::Field => 0,
    }
}

/// The four shared field stacks, each a `(top_value, joker_active)` pair
/// with a top value in `1..=12`.
pub open spec fn field_wf(field: Seq<(i8, bool)>) -> bool {
    &&& field.len() == 4
    &&& forall|i: int| 0 <= i < 4 ==> valid_top(#[trigger] field[i].0)
}

/// The move places a card onto a field stack and is legal for the given
/// field, hand, side stacks, and draw-stack top value: its source slot
/// exists and the card it names may go onto field stack `to_num`.
pub open spec fn move_ok(
    m: Move,
    field: Seq<(i8, bool)>,
    hand: Seq<i8>,
    side: Seq<Vec<i8>>,
    stack_top: i8,
) -> bool {
    &&& m.to == CardStack::Field
    &&& 0 <= m.to_num < 4
    &&& match m.from {
        CardStack::Stack => m.from_num == 0 && can_place(
            stack_top,
            field[m.to_num as int].0,
            field[m.to_num as int].1,
        ),
        CardStack::Hand => 0 <= m.from_num < hand.len() && can_place(
            hand[m.from_num as int],
            field[m.to_num as int].0,
            field[m.to_num as int].1,
        ),
        CardStack::Side => 0 <= m.from_num < 4 && side[m.from_num as int]@.len() > 0
            && can_place(
            side[m.from_num as int]@.last(),
            field[m.to_num as int].0,
            field[m.to_num as int].1,
        ),
        CardStack::Field => false,
    }
}

/// The move discards a card from an existing hand slot onto one of the
/// four side stacks.
pub open spec fn discard_ok(m: Move, hand_len: int) -> bool {
    &&& m.from == CardStack::Hand
    &&& 0 <= m.from_num < hand_len
    &&& m.to == CardStack::Side
    &&& 0 <= m.to_num < 4
}

/// The contract every decision policy implements: pick a move from the
/// legal list, or none to force a discard; and always name a discard.
pub trait Player {
    /// May inspect but never mutate state. Returning `None` is a
    /// deliberate pass that forces an end-of-turn discard.
    fn select_move(
        &self,
        moves: &Vec<Move>,
        stack: i8,
        opponent_stack: i8,
        side: &[Vec<i8>; 4],
        hand: &Vec<i8>,
        playing_field: &[(i8, bool); 4],
    ) -> (r: Option<Move>)
        requires
            moves@.len() > 0,
            field_wf(playing_field@),
            valid_cards(hand@),
            hand@.len() <= 127,
            forall|i: int| 0 <= i < 4 ==> valid_cards(#[trigger] side@[i]@),
            is_card(stack),
            is_card(opponent_stack),
            forall|i: int|
                0 <= i < moves@.len() ==> move_ok(
                    #[trigger] moves@[i],
                    playing_field@,
                    hand@,
                    side@,
                    stack,
                ),
        ensures
            r matches Some(m) ==> move_ok(m, playing_field@, hand@, side@, stack),
    ;

    /// Produces exactly one hand-to-side move; never fails while the hand
    /// is non-empty.
    fn select_stack(&self, hand: &Vec<i8>, side: &[Vec<i8>; 4]) -> (r: Move)
        requires
            hand@.len() > 0,
            hand@.len() <= 127,
            valid_cards(hand@),
            forall|i: int| 0 <= i < 4 ==> valid_cards(#[trigger] side@[i]@),
        ensures
            discard_ok(r, hand@.len() as int),
    ;
}

} // verus!
