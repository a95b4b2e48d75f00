//! The heuristic strategy: clears its own draw stack when directly
//! possible, otherwise searches for a chain of hand and side cards that
//! raises a field stack step by step until its own draw-stack top (or a
//! value the opponent needs) becomes playable, and only then falls back
//! to harmless single plays.

use vstd::prelude::*;
use crate::cards::{
    is_card, valid_cards, valid_top, can_place, spec_distance, distance_between_cards, JOKER,
};
use crate::move_stack::{Move, CardStack};
use crate::players::{Player, field_wf, move_ok};

verus! {

/// First index at or after `from` whose card equals `v`, scanning
/// left to right; `None` when no such card remains.
pub open spec fn find_card(hand: Seq<i8>, v: int, from: int) -> Option<int>
    decreases hand.len() - from,
{
    if from < 0 || from >= hand.len() {
        None
    } else if hand[from] as int == v {
        Some(from)
    } else {
        find_card(hand, v, from + 1)
    }
}

pub proof fn lemma_find_card_spec(hand: Seq<i8>, v: int, from: int)
    requires
        0 <= from <= hand.len(),
    ensures
        match find_card(hand, v, from) {
            Some(i) => from <= i < hand.len() && hand[i] as int == v && forall|j: int|
                from <= j < i ==> hand[j] as int != v,
            None => forall|j: int| from <= j < hand.len() ==> hand[j] as int != v,
        },
    decreases hand.len() - from,
{
    if from < hand.len() && hand[from] as int != v {
        lemma_find_card_spec(hand, v, from + 1);
    }
}

/// Scans a hand for the first card equal to `v`.
fn find_card_in(hand: &Vec<i8>, v: i8) -> (r: Option<usize>)
    ensures
        r matches Some(i) ==> i < hand@.len() && find_card(hand@, v as int, 0) == Some(i as int),
        r is None ==> find_card(hand@, v as int, 0) is None,
{
    let mut i: usize = 0;
    while i < hand.len()
        invariant
            i <= hand@.len(),
            forall|j: int| 0 <= j < i ==> hand@[j] != v,
        decreases hand@.len() - i,
    {
        if hand[i] == v {
            proof {
                lemma_find_card_spec(hand@, v as int, 0);
            }
            return Some(i);
        }
        i = i + 1;
    }
    proof {
        lemma_find_card_spec(hand@, v as int, 0);
    }
    None
}

/// A side stack offers a usable card for the value being sought: its
/// top is the predecessor card, or a Joker while the target field
/// stack's Joker flag is clear.
pub open spec fn side_matches(s: Seq<i8>, required: int, joker_active: bool) -> bool {
    s.len() > 0 && (s.last() as int == required - 1 || (s.last() == JOKER && !joker_active))
}

/// First side stack at or after `from` whose top qualifies for the
/// value being sought.
pub open spec fn find_side(
    side: Seq<Vec<i8>>,
    required: int,
    joker_active: bool,
    from: int,
) -> Option<int>
    decreases side.len() - from,
{
    if from < 0 || from >= side.len() {
        None
    } else if side_matches(side[from]@, required, joker_active) {
        Some(from)
    } else {
        find_side(side, required, joker_active, from + 1)
    }
}

proof fn lemma_find_side_spec(side: Seq<Vec<i8>>, required: int, joker_active: bool, from: int)
    requires
        0 <= from <= side.len(),
    ensures
        match find_side(side, required, joker_active, from) {
            Some(i) => from <= i < side.len() && side_matches(side[i]@, required, joker_active)
                && forall|j: int|
                from <= j < i ==> !side_matches(side[j]@, required, joker_active),
            None => forall|j: int|
                from <= j < side.len() ==> !side_matches(side[j]@, required, joker_active),
        },
    decreases side.len() - from,
{
    if from < side.len() && !side_matches(side[from]@, required, joker_active) {
        lemma_find_side_spec(side, required, joker_active, from + 1);
    }
}

/// Scans the four side stacks for the first one whose top qualifies.
fn find_side_in(side: &[Vec<i8>; 4], required: i8, joker_active: bool) -> (r: Option<usize>)
    requires
        -13 <= required <= 13,
    ensures
        r matches Some(i) ==> i < 4 && find_side(side@, required as int, joker_active, 0) == Some(
            i as int,
        ),
        r is None ==> find_side(side@, required as int, joker_active, 0) is None,
{
    let mut i: usize = 0;
    while i < 4
        invariant
            i <= 4,
            -13 <= required <= 13,
            forall|j: int|
                0 <= j < i ==> !side_matches(side@[j]@, required as int, joker_active),
        decreases 4 - i,
    {
        let s_len = side[i].len();
        if s_len > 0 {
            let top = side[i][s_len - 1];
            if top == required - 1 || (top == JOKER && !joker_active) {
                proof {
                    lemma_find_side_spec(side@, required as int, joker_active, 0);
                }
                return Some(i);
            }
        }
        i = i + 1;
    }
    proof {
        lemma_find_side_spec(side@, required as int, joker_active, 0);
    }
    None
}

/// The measure the chain search shrinks: virtual hand cards plus the
/// two one-shot allowances (one side card, one Joker).
pub open spec fn chain_measure(hand: Seq<i8>, used_stack: bool, used_joker: bool) -> int {
    hand.len() as int + (if used_stack {
        0int
    } else {
        1int
    }) + (if used_joker {
        0int
    } else {
        1int
    })
}

/// One step of the chain-feasibility search, hand-card branch: look for
/// the predecessor of the value being sought among the virtual hand; at
/// the bottom of the chain translate the card back to its slot in the
/// untouched hand and answer that move, otherwise commit the card and
/// seek one value lower. Falls through to the side-stack branch.
pub open spec fn chain_search(
    required: int,
    top: int,
    joker_active: bool,
    fs_idx: i8,
    hand: Seq<i8>,
    fixed_hand: Seq<i8>,
    side: Seq<Vec<i8>>,
    used_stack: bool,
    used_joker: bool,
) -> Option<Move>
    decreases chain_measure(hand, used_stack, used_joker), 2int,
    via chain_search_dec
{
    match find_card(hand, required - 1, 0) {
        Some(ci) => {
            if required - 2 == top {
                match find_card(fixed_hand, hand[ci] as int, 0) {
                    Some(pos) => Some(
                        Move {
                            from: CardStack::Hand,
                            from_num: pos as i8,
                            to: CardStack::Field,
                            to_num: fs_idx,
                        },
                    ),
                    None => chain_search_side(
                        required,
                        top,
                        joker_active,
                        fs_idx,
                        hand,
                        fixed_hand,
                        side,
                        used_stack,
                        used_joker,
                    ),
                }
            } else {
                chain_search(
                    required - 1,
                    top,
                    joker_active,
                    fs_idx,
                    hand.remove(ci),
                    fixed_hand,
                    side,
                    used_stack,
                    used_joker,
                )
            }
        },
        None => chain_search_side(
            required,
            top,
            joker_active,
            fs_idx,
            hand,
            fixed_hand,
            side,
            used_stack,
            used_joker,
        ),
    }
}

#[via_fn]
proof fn chain_search_dec(
    required: int,
    top: int,
    joker_active: bool,
    fs_idx: i8,
    hand: Seq<i8>,
    fixed_hand: Seq<i8>,
    side: Seq<Vec<i8>>,
    used_stack: bool,
    used_joker: bool,
) {
    lemma_find_card_spec(hand, required - 1, 0);
}

/// Side-stack branch of the chain search: usable at most once per
/// chain. At the bottom of the chain answer the side move, otherwise
/// commit the side card and seek one value lower. Falls through to the
/// Joker branch.
pub open spec fn chain_search_side(
    required: int,
    top: int,
    joker_active: bool,
    fs_idx: i8,
    hand: Seq<i8>,
    fixed_hand: Seq<i8>,
    side: Seq<Vec<i8>>,
    used_stack: bool,
    used_joker: bool,
) -> Option<Move>
    decreases chain_measure(hand, used_stack, used_joker), 1int,
{
    if !used_stack {
        match find_side(side, required, joker_active, 0) {
            Some(si) => {
                if required - 2 == top {
                    Some(
                        Move {
                            from: CardStack::Side,
                            from_num: si as i8,
                            to: CardStack::Field,
                            to_num: fs_idx,
                        },
                    )
                } else {
                    chain_search(
                        required - 1,
                        top,
                        joker_active,
                        fs_idx,
                        hand,
                        fixed_hand,
                        side,
                        true,
                        used_joker,
                    )
                }
            },
            None => chain_search_joker(
                required,
                top,
                joker_active,
                fs_idx,
                hand,
                fixed_hand,
                side,
                used_stack,
                used_joker,
            ),
        }
    } else {
        chain_search_joker(
            required,
            top,
            joker_active,
            fs_idx,
            hand,
            fixed_hand,
            side,
            used_stack,
            used_joker,
        )
    }
}

/// Joker branch of the chain search: a hand Joker, usable at most once
/// per chain. At the bottom of the chain it may only be answered while
/// the field stack's Joker flag is clear; otherwise commit it and seek
/// one value lower. When nothing applies the chain is infeasible.
pub open spec fn chain_search_joker(
    required: int,
    top: int,
    joker_active: bool,
    fs_idx: i8,
    hand: Seq<i8>,
    fixed_hand: Seq<i8>,
    side: Seq<Vec<i8>>,
    used_stack: bool,
    used_joker: bool,
) -> Option<Move>
    decreases chain_measure(hand, used_stack, used_joker), 0int,
    via chain_search_joker_dec
{
    if !used_joker {
        match find_card(hand, JOKER as int, 0) {
            Some(ci) => {
                if required - 2 == top && !joker_active {
                    match find_card(fixed_hand, JOKER as int, 0) {
                        Some(pos) => Some(
                            Move {
                                from: CardStack::Hand,
                                from_num: pos as i8,
                                to: CardStack::Field,
                                to_num: fs_idx,
                            },
                        ),
                        None => None,
                    }
                } else {
                    chain_search(
                        required - 1,
                        top,
                        joker_active,
                        fs_idx,
                        hand.remove(ci),
                        fixed_hand,
                        side,
                        used_stack,
                        true,
                    )
                }
            },
            None => None,
        }
    } else {
        None
    }
}

#[via_fn]
proof fn chain_search_joker_dec(
    required: int,
    top: int,
    joker_active: bool,
    fs_idx: i8,
    hand: Seq<i8>,
    fixed_hand: Seq<i8>,
    side: Seq<Vec<i8>>,
    used_stack: bool,
    used_joker: bool,
) {
    lemma_find_card_spec(hand, JOKER as int, 0);
}

/// What the chain search promises of a move it answers: it targets the
/// searched field stack, and the card it names (in the untouched hand,
/// or on top of a side stack) may be placed there right now.
pub open spec fn chain_move_ok(
    m: Move,
    f: (i8, bool),
    fs_idx: i8,
    fixed_hand: Seq<i8>,
    side: Seq<Vec<i8>>,
) -> bool {
    &&& m.to == CardStack::Field
    &&& m.to_num == fs_idx
    &&& ((m.from == CardStack::Hand && 0 <= m.from_num < fixed_hand.len() && can_place(
        fixed_hand[m.from_num as int],
        f.0,
        f.1,
    )) || (m.from == CardStack::Side && 0 <= m.from_num < 4 && side[m.from_num as int]@.len() > 0
        && can_place(side[m.from_num as int]@.last(), f.0, f.1)))
}

/// Bound that keeps the sought value from running away downward: each
/// unused one-shot allowance can push it at most one step below the
/// smallest card value.
pub open spec fn required_floor(used_stack: bool, used_joker: bool) -> int {
    (if used_stack {
        0int
    } else {
        1int
    }) + (if used_joker {
        0int
    } else {
        1int
    }) - 3
}

/// Makes a working copy of a card sequence.
fn copy_cards(cards: &Vec<i8>) -> (r: Vec<i8>)
    ensures
        r@ == cards@,
{
    let mut r: Vec<i8> = Vec::new();
    let mut i: usize = 0;
    while i < cards.len()
        invariant
            i <= cards@.len(),
            r@ == cards@.subrange(0, i as int),
        decreases cards@.len() - i,
    {
        r.push(cards[i]);
        proof {
            assert(r@ =~= cards@.subrange(0, i as int + 1));
        }
        i = i + 1;
    }
    proof {
        assert(r@ =~= cards@);
    }
    r
}

pub struct GoodPlayer {}

impl GoodPlayer {
    /// Recursively decides whether the cards in hand and on the side
    /// stacks can raise field stack `playing_field_stack` step by step
    /// until `stack` becomes playable, and if so answers the first move
    /// of that chain.
    pub fn recurse_stack(
        &self,
        stack: i8,
        playing_field: (i8, bool),
        playing_field_stack: i8,
        hand: Vec<i8>,
        fixed_hand: &Vec<i8>,
        side: &[Vec<i8>; 4],
        used_stack: bool,
        used_joker: bool,
    ) -> (r: Option<Move>)
        requires
            valid_top(playing_field.0),
            valid_cards(hand@),
            valid_cards(fixed_hand@),
            forall|i: int| 0 <= i < 4 ==> valid_cards(#[trigger] side@[i]@),
            0 <= playing_field_stack < 4,
            required_floor(used_stack, used_joker) <= stack <= 13,
            hand@.len() <= 127,
            fixed_hand@.len() <= 127,
        ensures
            r == chain_search(
                stack as int,
                playing_field.0 as int,
                playing_field.1,
                playing_field_stack,
                hand@,
                fixed_hand@,
                side@,
                used_stack,
                used_joker,
            ),
            r matches Some(m) ==> chain_move_ok(
                m,
                playing_field,
                playing_field_stack,
                fixed_hand@,
                side@,
            ),
        decreases chain_measure(hand@, used_stack, used_joker), 2int,
    {
        // A hand card that could come directly before the sought value.
        match find_card_in(&hand, stack - 1) {
            Some(card) => {
                proof {
                    lemma_find_card_spec(hand@, stack as int - 1, 0);
                }
                if stack - 2 == playing_field.0 {
                    // The chain bottoms out: name the card's slot in the
                    // untouched hand.
                    let cv = hand[card];
                    match find_card_in(fixed_hand, cv) {
                        Some(card_pos) => {
                            proof {
                                lemma_find_card_spec(fixed_hand@, cv as int, 0);
                            }
                            Some(
                                Move {
                                    to: CardStack::Field,
                                    to_num: playing_field_stack,
                                    from: CardStack::Hand,
                                    from_num: card_pos as i8,
                                },
                            )
                        },
                        None => self.recurse_side(
                            stack,
                            playing_field,
                            playing_field_stack,
                            hand,
                            fixed_hand,
                            side,
                            used_stack,
                            used_joker,
                        ),
                    }
                } else {
                    let mut shorter = hand;
                    shorter.remove(card);
                    self.recurse_stack(
                        stack - 1,
                        playing_field,
                        playing_field_stack,
                        shorter,
                        fixed_hand,
                        side,
                        used_stack,
                        used_joker,
                    )
                }
            },
            None => self.recurse_side(
                stack,
                playing_field,
                playing_field_stack,
                hand,
                fixed_hand,
                side,
                used_stack,
                used_joker,
            ),
        }
    }

    /// Side-stack branch of the search: at most one side card per chain.
    fn recurse_side(
        &self,
        stack: i8,
        playing_field: (i8, bool),
        playing_field_stack: i8,
        hand: Vec<i8>,
        fixed_hand: &Vec<i8>,
        side: &[Vec<i8>; 4],
        used_stack: bool,
        used_joker: bool,
    ) -> (r: Option<Move>)
        requires
            valid_top(playing_field.0),
            valid_cards(hand@),
            valid_cards(fixed_hand@),
            forall|i: int| 0 <= i < 4 ==> valid_cards(#[trigger] side@[i]@),
            0 <= playing_field_stack < 4,
            required_floor(used_stack, used_joker) <= stack <= 13,
            hand@.len() <= 127,
            fixed_hand@.len() <= 127,
        ensures
            r == chain_search_side(
                stack as int,
                playing_field.0 as int,
                playing_field.1,
                playing_field_stack,
                hand@,
                fixed_hand@,
                side@,
                used_stack,
                used_joker,
            ),
            r matches Some(m) ==> chain_move_ok(
                m,
                playing_field,
                playing_field_stack,
                fixed_hand@,
                side@,
            ),
        decreases chain_measure(hand@, used_stack, used_joker), 1int,
    {
        if !used_stack {
            match find_side_in(side, stack, playing_field.1) {
                Some(index) => {
                    if stack - 2 == playing_field.0 {
                        proof {
                            lemma_find_side_spec(
                                side@,
                                stack as int,
                                playing_field.1,
                                0,
                            );
                        }
                        Some(
                            Move {
                                to: CardStack::Field,
                                to_num: playing_field_stack,
                                from: CardStack::Side,
                                from_num: index as i8,
                            },
                        )
                    } else {
                        self.recurse_stack(
                            stack - 1,
                            playing_field,
                            playing_field_stack,
                            hand,
                            fixed_hand,
                            side,
                            true,
                            used_joker,
                        )
                    }
                },
                None => self.recurse_joker(
                    stack,
                    playing_field,
                    playing_field_stack,
                    hand,
                    fixed_hand,
                    side,
                    used_stack,
                    used_joker,
                ),
            }
        } else {
            self.recurse_joker(
                stack,
                playing_field,
                playing_field_stack,
                hand,
                fixed_hand,
                side,
                used_stack,
                used_joker,
            )
        }
    }

    /// Joker branch of the search: at most one hand Joker per chain.
    fn recurse_joker(
        &self,
        stack: i8,
        playing_field: (i8, bool),
        playing_field_stack: i8,
        hand: Vec<i8>,
        fixed_hand: &Vec<i8>,
        side: &[Vec<i8>; 4],
        used_stack: bool,
        used_joker: bool,
    ) -> (r: Option<Move>)
        requires
            valid_top(playing_field.0),
            valid_cards(hand@),
            valid_cards(fixed_hand@),
            forall|i: int| 0 <= i < 4 ==> valid_cards(#[trigger] side@[i]@),
            0 <= playing_field_stack < 4,
            required_floor(used_stack, used_joker) <= stack <= 13,
            hand@.len() <= 127,
            fixed_hand@.len() <= 127,
        ensures
            r == chain_search_joker(
                stack as int,
                playing_field.0 as int,
                playing_field.1,
                playing_field_stack,
                hand@,
                fixed_hand@,
                side@,
                used_stack,
                used_joker,
            ),
            r matches Some(m) ==> chain_move_ok(
                m,
                playing_field,
                playing_field_stack,
                fixed_hand@,
                side@,
            ),
        decreases chain_measure(hand@, used_stack, used_joker), 0int,
    {
        if !used_joker {
            match find_card_in(&hand, JOKER) {
                Some(card) => {
                    if stack - 2 == playing_field.0 && !playing_field.1 {
                        match find_card_in(fixed_hand, JOKER) {
                            Some(card_pos) => {
                                proof {
                                    lemma_find_card_spec(fixed_hand@, JOKER as int, 0);
                                }
                                Some(
                                    Move {
                                        to: CardStack::Field,
                                        to_num: playing_field_stack,
                                        from: CardStack::Hand,
                                        from_num: card_pos as i8,
                                    },
                                )
                            },
                            None => None,
                        }
                    } else {
                        let mut shorter = hand;
                        shorter.remove(card);
                        self.recurse_stack(
                            stack - 1,
                            playing_field,
                            playing_field_stack,
                            shorter,
                            fixed_hand,
                            side,
                            used_stack,
                            true,
                        )
                    }
                },
                None => None,
            }
        } else {
            None
        }
    }
}

/// First field stack (from `i` on) whose chain search for the player's
/// own draw-stack top succeeds, and the move it answers.
pub open spec fn first_self_chain(
    field: Seq<(i8, bool)>,
    stack: i8,
    hand: Seq<i8>,
    side: Seq<Vec<i8>>,
    i: int,
) -> Option<Move>
    decreases 4 - i,
{
    if i < 0 || i >= 4 {
        None
    } else {
        match chain_search(
            stack as int,
            field[i].0 as int,
            field[i].1,
            i as i8,
            hand,
            hand,
            side,
            false,
            false,
        ) {
            Some(m) => Some(m),
            None => first_self_chain(field, stack, hand, side, i + 1),
        }
    }
}

/// First field stack (from `i` on) close enough to the opponent's
/// draw-stack top — fewer than four steps ahead — whose chain search
/// for the value the opponent needs succeeds.
pub open spec fn first_block_chain(
    field: Seq<(i8, bool)>,
    opponent_stack: i8,
    hand: Seq<i8>,
    side: Seq<Vec<i8>>,
    i: int,
) -> Option<Move>
    decreases 4 - i,
{
    if i < 0 || i >= 4 {
        None
    } else if spec_distance(field[i].0, opponent_stack) < 4 && chain_search(
        opponent_stack as int + 1,
        field[i].0 as int,
        field[i].1,
        i as i8,
        hand,
        hand,
        side,
        false,
        false,
    ) is Some {
        chain_search(
            opponent_stack as int + 1,
            field[i].0 as int,
            field[i].1,
            i as i8,
            hand,
            hand,
            side,
            false,
            false,
        )
    } else {
        first_block_chain(field, opponent_stack, hand, side, i + 1)
    }
}

/// First listed hand move (from `i` on) whose card is no Joker and
/// lies more than three steps ahead of the opponent's draw-stack top.
pub open spec fn first_hand_filter(
    moves: Seq<Move>,
    hand: Seq<i8>,
    opponent_stack: i8,
    i: int,
) -> Option<Move>
    decreases moves.len() - i,
{
    if i < 0 || i >= moves.len() {
        None
    } else if moves[i].from == CardStack::Hand && spec_distance(
        hand[moves[i].from_num as int],
        opponent_stack,
    ) > 3 && hand[moves[i].from_num as int] != JOKER {
        Some(moves[i])
    } else {
        first_hand_filter(moves, hand, opponent_stack, i + 1)
    }
}

/// First listed side move (from `i` on) whose card is no Joker and
/// lies more than three steps ahead of the opponent's draw-stack top.
pub open spec fn first_side_filter(
    moves: Seq<Move>,
    side: Seq<Vec<i8>>,
    opponent_stack: i8,
    i: int,
) -> Option<Move>
    decreases moves.len() - i,
{
    if i < 0 || i >= moves.len() {
        None
    } else if moves[i].from == CardStack::Side && spec_distance(
        side[moves[i].from_num as int]@.last(),
        opponent_stack,
    ) > 3 && side[moves[i].from_num as int]@.last() != JOKER {
        Some(moves[i])
    } else {
        first_side_filter(moves, side, opponent_stack, i + 1)
    }
}

/// The heuristic's whole decision, first matching rule wins: take a
/// directly playable draw-stack move; advance toward the own
/// draw-stack top by a chain; occupy a field stack the opponent is
/// close to needing; play a harmless hand card; play a harmless side
/// card; otherwise decline.
pub open spec fn good_move_choice(
    moves: Seq<Move>,
    stack: i8,
    opponent_stack: i8,
    side: Seq<Vec<i8>>,
    hand: Seq<i8>,
    field: Seq<(i8, bool)>,
) -> Option<Move> {
    if moves[0].from == CardStack::Stack {
        Some(moves[0])
    } else if first_self_chain(field, stack, hand, side, 0) is Some {
        first_self_chain(field, stack, hand, side, 0)
    } else if first_block_chain(field, opponent_stack, hand, side, 0) is Some {
        first_block_chain(field, opponent_stack, hand, side, 0)
    } else if first_hand_filter(moves, hand, opponent_stack, 0) is Some {
        first_hand_filter(moves, hand, opponent_stack, 0)
    } else {
        first_side_filter(moves, side, opponent_stack, 0)
    }
}

/// First side stack (from `s` on) whose top value also sits somewhere
/// in the hand, and the move consolidating that card onto it.
pub open spec fn match_side_top(hand: Seq<i8>, side: Seq<Vec<i8>>, s: int) -> Option<Move>
    decreases 4 - s,
{
    if s < 0 || s >= 4 {
        None
    } else if side[s]@.len() > 0 {
        match find_card(hand, side[s]@.last() as int, 0) {
            Some(h) => Some(
                Move {
                    from: CardStack::Hand,
                    from_num: h as i8,
                    to: CardStack::Side,
                    to_num: s as i8,
                },
            ),
            None => match_side_top(hand, side, s + 1),
        }
    } else {
        match_side_top(hand, side, s + 1)
    }
}

/// First hand slot `i - 1` (scanning `i` upward from 1) whose card
/// shows up again later in the hand: the duplicate the discard rules
/// may part with.
pub open spec fn dup_index(hand: Seq<i8>, i: int) -> Option<int>
    decreases hand.len() - i,
{
    if i < 1 || i >= hand.len() {
        None
    } else if exists|j: int| i <= j < hand.len() && #[trigger] hand[j] == hand[i - 1] {
        Some(i - 1)
    } else {
        dup_index(hand, i + 1)
    }
}

/// First empty side stack from `s` on.
pub open spec fn first_empty_side(side: Seq<Vec<i8>>, s: int) -> Option<int>
    decreases 4 - s,
{
    if s < 0 || s >= 4 {
        None
    } else if side[s]@.len() == 0 {
        Some(s)
    } else {
        first_empty_side(side, s + 1)
    }
}

/// First side stack (from `s` on) whose top is the successor of the
/// given hand card: a seed for a future descending play.
pub open spec fn seed_inner(h: i8, side: Seq<Vec<i8>>, s: int) -> Option<int>
    decreases 4 - s,
{
    if s < 0 || s >= 4 {
        None
    } else if side[s]@.len() > 0 && h as int + 1 == side[s]@.last() as int {
        Some(s)
    } else {
        seed_inner(h, side, s + 1)
    }
}

/// First hand slot (from `h` on) whose card seeds some side stack,
/// and the move doing so: outer loop by hand slot, inner by side
/// stack.
pub open spec fn seed_rule(hand: Seq<i8>, side: Seq<Vec<i8>>, h: int) -> Option<Move>
    decreases hand.len() - h,
{
    if h < 0 || h >= hand.len() {
        None
    } else {
        match seed_inner(hand[h], side, 0) {
            Some(s) => Some(
                Move {
                    from: CardStack::Hand,
                    from_num: h as i8,
                    to: CardStack::Side,
                    to_num: s as i8,
                },
            ),
            None => seed_rule(hand, side, h + 1),
        }
    }
}

/// The heuristic's discard, first matching rule wins: consolidate a
/// card onto a side stack already topped by its double; park one of a
/// duplicated pair on an empty side stack; park the first hand card on
/// an empty side stack; seed a side stack topped by the card's
/// successor; otherwise drop the first hand card on side stack `0`.
pub open spec fn good_discard_choice(hand: Seq<i8>, side: Seq<Vec<i8>>) -> Move {
    match match_side_top(hand, side, 0) {
        Some(m) => m,
        None => match (dup_index(hand, 1), first_empty_side(side, 0)) {
            (Some(d), Some(e)) => Move {
                from: CardStack::Hand,
                from_num: d as i8,
                to: CardStack::Side,
                to_num: e as i8,
            },
            (_, Some(e)) => Move {
                from: CardStack::Hand,
                from_num: 0,
                to: CardStack::Side,
                to_num: e as i8,
            },
            (_, None) => match seed_rule(hand, side, 0) {
                Some(m) => m,
                None => Move { from: CardStack::Hand, from_num: 0, to: CardStack::Side, to_num: 0 },
            },
        },
    }
}

/// Whether any card from `from` on equals `v`.
fn contains_from(hand: &Vec<i8>, from: usize, v: i8) -> (r: bool)
    requires
        from <= hand@.len(),
    ensures
        r == exists|j: int| from <= j < hand@.len() && hand@[j] == v,
{
    let mut j = from;
    while j < hand.len()
        invariant
            from <= j <= hand@.len(),
            forall|k: int| from <= k < j ==> hand@[k] != v,
        decreases hand@.len() - j,
    {
        if hand[j] == v {
            return true;
        }
        j = j + 1;
    }
    false
}

/// First hand slot whose card shows up again later in the hand.
fn find_duplicate(hand: &Vec<i8>) -> (r: Option<usize>)
    ensures
        r matches Some(d) ==> d < hand@.len() && dup_index(hand@, 1) == Some(d as int),
        r is None ==> dup_index(hand@, 1) is None,
{
    let mut i: usize = 1;
    while i < hand.len()
        invariant
            1 <= i,
            hand@.len() > 1 ==> i <= hand@.len(),
            dup_index(hand@, 1) == dup_index(hand@, i as int),
        decreases hand@.len() - i,
    {
        if contains_from(hand, i, hand[i - 1]) {
            return Some(i - 1);
        }
        i = i + 1;
    }
    None
}

/// First empty side stack.
fn find_empty_side(side: &[Vec<i8>; 4]) -> (r: Option<usize>)
    ensures
        r matches Some(e) ==> e < 4 && first_empty_side(side@, 0) == Some(e as int),
        r is None ==> first_empty_side(side@, 0) is None,
{
    let mut s: usize = 0;
    while s < 4
        invariant
            s <= 4,
            first_empty_side(side@, 0) == first_empty_side(side@, s as int),
        decreases 4 - s,
    {
        if side[s].len() == 0 {
            return Some(s);
        }
        s = s + 1;
    }
    None
}

/// First side stack whose top is the successor of the given hand card.
fn seed_side_for(h: i8, side: &[Vec<i8>; 4]) -> (r: Option<usize>)
    requires
        is_card(h),
    ensures
        r matches Some(s) ==> s < 4 && seed_inner(h, side@, 0) == Some(s as int),
        r is None ==> seed_inner(h, side@, 0) is None,
{
    let mut s: usize = 0;
    while s < 4
        invariant
            s <= 4,
            is_card(h),
            seed_inner(h, side@, 0) == seed_inner(h, side@, s as int),
        decreases 4 - s,
    {
        let sl = side[s].len();
        if sl > 0 {
            let top = side[s][sl - 1];
            if h + 1 == top {
                return Some(s);
            }
        }
        s = s + 1;
    }
    None
}

impl Player for GoodPlayer {
    fn select_move(
        &self,
        moves: &Vec<Move>,
        stack: i8,
        opponent_stack: i8,
        side: &[Vec<i8>; 4],
        hand: &Vec<i8>,
        playing_field: &[(i8, bool); 4],
    ) -> (r: Option<Move>)
        ensures
            r == good_move_choice(moves@, stack, opponent_stack, side@, hand@, playing_field@),
    {
        // If the player can play a card from the draw stack, do so.
        let first_move = moves[0];
        if first_move.from == CardStack::Stack {
            return Some(first_move);
        }

        // Chains from hand and side that reach the own draw-stack top.
        let mut i: usize = 0;
        while i < 4
            invariant
                i <= 4,
                field_wf(playing_field@),
                valid_cards(hand@),
                hand@.len() <= 127,
                forall|k: int| 0 <= k < 4 ==> valid_cards(#[trigger] side@[k]@),
                is_card(stack),
                moves@.len() > 0,
                moves@[0].from != CardStack::Stack,
                first_self_chain(playing_field@, stack, hand@, side@, 0) == first_self_chain(
                    playing_field@,
                    stack,
                    hand@,
                    side@,
                    i as int,
                ),
            decreases 4 - i,
        {
            let working = copy_cards(hand);
            let m = self.recurse_stack(
                stack,
                playing_field[i],
                i as i8,
                working,
                hand,
                side,
                false,
                false,
            );
            if m.is_some() {
                proof {
                    assert(first_self_chain(playing_field@, stack, hand@, side@, i as int) == m);
                }
                return m;
            }
            i = i + 1;
        }

        // Chains that occupy a field stack the opponent is close to
        // needing.
        let mut b: usize = 0;
        while b < 4
            invariant
                b <= 4,
                field_wf(playing_field@),
                valid_cards(hand@),
                hand@.len() <= 127,
                forall|k: int| 0 <= k < 4 ==> valid_cards(#[trigger] side@[k]@),
                is_card(opponent_stack),
                moves@.len() > 0,
                moves@[0].from != CardStack::Stack,
                first_self_chain(playing_field@, stack, hand@, side@, 0) is None,
                first_block_chain(playing_field@, opponent_stack, hand@, side@, 0)
                    == first_block_chain(
                    playing_field@,
                    opponent_stack,
                    hand@,
                    side@,
                    b as int,
                ),
            decreases 4 - b,
        {
            let f = playing_field[b];
            let d = distance_between_cards(f.0, opponent_stack);
            if d < 4 {
                let working = copy_cards(hand);
                let m = self.recurse_stack(
                    opponent_stack + 1,
                    f,
                    b as i8,
                    working,
                    hand,
                    side,
                    false,
                    false,
                );
                if m.is_some() {
                    proof {
                        assert(first_block_chain(
                            playing_field@,
                            opponent_stack,
                            hand@,
                            side@,
                            b as int,
                        ) == m);
                    }
                    return m;
                }
            }
            b = b + 1;
        }

        // Hand moves that do not help the opponent.
        let mut k: usize = 0;
        while k < moves.len()
            invariant
                k <= moves@.len(),
                valid_cards(hand@),
                is_card(opponent_stack),
                forall|j: int|
                    0 <= j < moves@.len() ==> move_ok(
                        #[trigger] moves@[j],
                        playing_field@,
                        hand@,
                        side@,
                        stack,
                    ),
                first_self_chain(playing_field@, stack, hand@, side@, 0) is None,
                first_block_chain(playing_field@, opponent_stack, hand@, side@, 0) is None,
                moves@.len() > 0,
                moves@[0].from != CardStack::Stack,
                first_hand_filter(moves@, hand@, opponent_stack, 0) == first_hand_filter(
                    moves@,
                    hand@,
                    opponent_stack,
                    k as int,
                ),
            decreases moves@.len() - k,
        {
            let m = moves[k];
            if m.from == CardStack::Hand {
                let hv = hand[m.from_num as usize];
                let d = distance_between_cards(hv, opponent_stack);
                if d > 3 && hv != JOKER {
                    proof {
                        assert(first_hand_filter(moves@, hand@, opponent_stack, k as int) == Some(
                            m,
                        ));
                    }
                    return Some(m);
                }
            }
            k = k + 1;
        }

        // Side moves that do not help the opponent.
        let mut k2: usize = 0;
        while k2 < moves.len()
            invariant
                k2 <= moves@.len(),
                forall|j: int| 0 <= j < 4 ==> valid_cards(#[trigger] side@[j]@),
                is_card(opponent_stack),
                forall|j: int|
                    0 <= j < moves@.len() ==> move_ok(
                        #[trigger] moves@[j],
                        playing_field@,
                        hand@,
                        side@,
                        stack,
                    ),
                first_self_chain(playing_field@, stack, hand@, side@, 0) is None,
                first_block_chain(playing_field@, opponent_stack, hand@, side@, 0) is None,
                first_hand_filter(moves@, hand@, opponent_stack, 0) is None,
                moves@.len() > 0,
                moves@[0].from != CardStack::Stack,
                first_side_filter(moves@, side@, opponent_stack, 0) == first_side_filter(
                    moves@,
                    side@,
                    opponent_stack,
                    k2 as int,
                ),
            decreases moves@.len() - k2,
        {
            let m = moves[k2];
            if m.from == CardStack::Side {
                let sl = side[m.from_num as usize].len();
                let top = side[m.from_num as usize][sl - 1];
                let d = distance_between_cards(top, opponent_stack);
                if d > 3 && top != JOKER {
                    proof {
                        assert(first_side_filter(moves@, side@, opponent_stack, k2 as int) == Some(
                            m,
                        ));
                    }
                    return Some(m);
                }
            }
            k2 = k2 + 1;
        }

        // Nothing fits the criteria: decline, forcing a discard.
        None
    }

    fn select_stack(&self, hand: &Vec<i8>, side: &[Vec<i8>; 4]) -> (r: Move)
        ensures
            r == good_discard_choice(hand@, side@),
    {
        // Consolidate onto a side stack already topped by the same card.
        let mut s: usize = 0;
        while s < 4
            invariant
                s <= 4,
                hand@.len() > 0,
                hand@.len() <= 127,
                match_side_top(hand@, side@, 0) == match_side_top(hand@, side@, s as int),
            decreases 4 - s,
        {
            let sl = side[s].len();
            if sl > 0 {
                let top = side[s][sl - 1];
                match find_card_in(hand, top) {
                    Some(h) => {
                        return Move {
                            to: CardStack::Side,
                            to_num: s as i8,
                            from: CardStack::Hand,
                            from_num: h as i8,
                        };
                    },
                    None => {},
                }
            }
            s = s + 1;
        }

        // Park a duplicated card on an empty side stack.
        let duplicate = find_duplicate(hand);
        let empty_side = find_empty_side(side);
        match duplicate {
            None => {},
            Some(d) => {
                match empty_side {
                    None => {},
                    Some(e) => {
                        return Move {
                            to: CardStack::Side,
                            to_num: e as i8,
                            from: CardStack::Hand,
                            from_num: d as i8,
                        };
                    },
                }
            },
        }

        match empty_side {
            None => {
                // No side stack is free: seed one topped by a successor.
                let mut h: usize = 0;
                while h < hand.len()
                    invariant
                        h <= hand@.len(),
                        hand@.len() > 0,
                        hand@.len() <= 127,
                        valid_cards(hand@),
                        match_side_top(hand@, side@, 0) is None,
                        first_empty_side(side@, 0) is None,
                        seed_rule(hand@, side@, 0) == seed_rule(hand@, side@, h as int),
                    decreases hand@.len() - h,
                {
                    match seed_side_for(hand[h], side) {
                        Some(si) => {
                            proof {
                                assert(seed_rule(hand@, side@, h as int) matches Some(mv)
                                    && mv.from_num == h as i8 && mv.to_num == si as i8);
                            }
                            return Move {
                                from: CardStack::Hand,
                                from_num: h as i8,
                                to: CardStack::Side,
                                to_num: si as i8,
                            };
                        },
                        None => {},
                    }
                    h = h + 1;
                }
            },
            Some(e) => {
                return Move {
                    from: CardStack::Hand,
                    from_num: 0,
                    to: CardStack::Side,
                    to_num: e as i8,
                };
            },
        }

        // Last resort: the first hand card onto the first side stack.
        Move { from: CardStack::Hand, from_num: 0, to: CardStack::Side, to_num: 0 }
    }
}

} // verus!
