//! The game engine: owns the shared field and the player states,
//! applies moves, enumerates legal moves, and runs the per-turn state
//! machine.

use vstd::prelude::*;
use crate::cards::{can_place, field_after, JOKER};
use crate::move_stack::{Move, CardStack};
use crate::players::{
    PlayerState, Player, field_wf, move_ok, move_executable, candidate_card, draw_deal_card,
};
use crate::rng::fresh_rng;

verus! {

/// Draw-stack candidates over the first `n` field stacks, in field
/// order: one move per field stack that accepts the draw-stack top.
pub open spec fn stack_moves_upto(field: Seq<(i8, bool)>, top_card: i8, n: int) -> Seq<Move>
    decreases n,
{
    if n <= 0 {
        Seq::empty()
    } else {
        stack_moves_upto(field, top_card, n - 1) + (if can_place(
            top_card,
            field[n - 1].0,
            field[n - 1].1,
        ) {
            seq![Move {
                from: CardStack::Stack,
                from_num: 0,
                to: CardStack::Field,
                to_num: (n - 1) as i8,
            }]
        } else {
            Seq::empty()
        })
    }
}

/// Hand candidates onto one field stack `f` at field index `fi`, over
/// the first `n` hand slots, in hand order.
pub open spec fn hand_moves_onto(f: (i8, bool), fi: int, hand: Seq<i8>, n: int) -> Seq<Move>
    decreases n,
{
    if n <= 0 {
        Seq::empty()
    } else {
        hand_moves_onto(f, fi, hand, n - 1) + (if can_place(hand[n - 1], f.0, f.1) {
            seq![Move {
                from: CardStack::Hand,
                from_num: (n - 1) as i8,
                to: CardStack::Field,
                to_num: fi as i8,
            }]
        } else {
            Seq::empty()
        })
    }
}

/// Hand candidates over the first `n` field stacks: outer loop by field
/// index, inner loop by hand index.
pub open spec fn hand_moves_upto(field: Seq<(i8, bool)>, hand: Seq<i8>, n: int) -> Seq<Move>
    decreases n,
{
    if n <= 0 {
        Seq::empty()
    } else {
        hand_moves_upto(field, hand, n - 1) + hand_moves_onto(
            field[n - 1],
            n - 1,
            hand,
            hand.len() as int,
        )
    }
}

/// Candidates from one side stack `s` at side index `si` over the first
/// `n` field stacks, in field order; an empty side stack offers none.
pub open spec fn side_moves_onto(s: Seq<i8>, si: int, field: Seq<(i8, bool)>, n: int) -> Seq<Move>
    decreases n,
{
    if n <= 0 || s.len() == 0 {
        Seq::empty()
    } else {
        side_moves_onto(s, si, field, n - 1) + (if can_place(s.last(), field[n - 1].0, field[n
            - 1].1) {
            seq![Move {
                from: CardStack::Side,
                from_num: si as i8,
                to: CardStack::Field,
                to_num: (n - 1) as i8,
            }]
        } else {
            Seq::empty()
        })
    }
}

/// Side candidates over the first `n` side stacks: outer loop by side
/// index, inner loop by field index.
pub open spec fn side_moves_upto(side: Seq<Vec<i8>>, field: Seq<(i8, bool)>, n: int) -> Seq<Move>
    decreases n,
{
    if n <= 0 {
        Seq::empty()
    } else {
        side_moves_upto(side, field, n - 1) + side_moves_onto(side[n - 1]@, n - 1, field, 4)
    }
}

/// Everything a player could legally play to the field right now, in
/// the enumeration order the strategies rely on: all draw-stack
/// candidates, then all hand candidates, then all side candidates.
/// Hand-to-side discards are never part of this list.
pub open spec fn valid_moves_seq(
    field: Seq<(i8, bool)>,
    hand: Seq<i8>,
    side: Seq<Vec<i8>>,
    top_card: i8,
) -> Seq<Move> {
    stack_moves_upto(field, top_card, 4) + hand_moves_upto(field, hand, 4) + side_moves_upto(
        side,
        field,
        4,
    )
}

proof fn lemma_stack_moves_ok(
    field: Seq<(i8, bool)>,
    hand: Seq<i8>,
    side: Seq<Vec<i8>>,
    top_card: i8,
    n: int,
)
    requires
        field.len() == 4,
        0 <= n <= 4,
    ensures
        forall|k: int|
            0 <= k < stack_moves_upto(field, top_card, n).len() ==> move_ok(
                #[trigger] stack_moves_upto(field, top_card, n)[k],
                field,
                hand,
                side,
                top_card,
            ),
    decreases n,
{
    if n > 0 {
        lemma_stack_moves_ok(field, hand, side, top_card, n - 1);
        let prev = stack_moves_upto(field, top_card, n - 1);
        let cur = stack_moves_upto(field, top_card, n);
        assert forall|k: int| 0 <= k < cur.len() implies move_ok(
            cur[k],
            field,
            hand,
            side,
            top_card,
        ) by {
            if k < prev.len() {
                assert(cur[k] == prev[k]);
            }
        }
    }
}

proof fn lemma_hand_moves_onto_ok(
    field: Seq<(i8, bool)>,
    hand: Seq<i8>,
    side: Seq<Vec<i8>>,
    top_card: i8,
    fi: int,
    n: int,
)
    requires
        field.len() == 4,
        0 <= fi < 4,
        0 <= n <= hand.len(),
        hand.len() <= 127,
    ensures
        forall|k: int|
            0 <= k < hand_moves_onto(field[fi], fi, hand, n).len() ==> move_ok(
                #[trigger] hand_moves_onto(field[fi], fi, hand, n)[k],
                field,
                hand,
                side,
                top_card,
            ),
    decreases n,
{
    if n > 0 {
        lemma_hand_moves_onto_ok(field, hand, side, top_card, fi, n - 1);
        let prev = hand_moves_onto(field[fi], fi, hand, n - 1);
        let cur = hand_moves_onto(field[fi], fi, hand, n);
        assert forall|k: int| 0 <= k < cur.len() implies move_ok(
            cur[k],
            field,
            hand,
            side,
            top_card,
        ) by {
            if k < prev.len() {
                assert(cur[k] == prev[k]);
            }
        }
    }
}

proof fn lemma_hand_moves_ok(
    field: Seq<(i8, bool)>,
    hand: Seq<i8>,
    side: Seq<Vec<i8>>,
    top_card: i8,
    n: int,
)
    requires
        field.len() == 4,
        0 <= n <= 4,
        hand.len() <= 127,
    ensures
        forall|k: int|
            0 <= k < hand_moves_upto(field, hand, n).len() ==> move_ok(
                #[trigger] hand_moves_upto(field, hand, n)[k],
                field,
                hand,
                side,
                top_card,
            ),
    decreases n,
{
    if n > 0 {
        lemma_hand_moves_ok(field, hand, side, top_card, n - 1);
        lemma_hand_moves_onto_ok(field, hand, side, top_card, n - 1, hand.len() as int);
        let prev = hand_moves_upto(field, hand, n - 1);
        let tail = hand_moves_onto(field[n - 1], n - 1, hand, hand.len() as int);
        let cur = hand_moves_upto(field, hand, n);
        assert forall|k: int| 0 <= k < cur.len() implies move_ok(
            cur[k],
            field,
            hand,
            side,
            top_card,
        ) by {
            if k < prev.len() {
                assert(cur[k] == prev[k]);
            } else {
                assert(cur[k] == tail[k - prev.len()]);
            }
        }
    }
}

proof fn lemma_side_moves_onto_ok(
    field: Seq<(i8, bool)>,
    hand: Seq<i8>,
    side: Seq<Vec<i8>>,
    top_card: i8,
    si: int,
    n: int,
)
    requires
        field.len() == 4,
        0 <= si < side.len(),
        side.len() == 4,
        0 <= n <= 4,
    ensures
        forall|k: int|
            0 <= k < side_moves_onto(side[si]@, si, field, n).len() ==> move_ok(
                #[trigger] side_moves_onto(side[si]@, si, field, n)[k],
                field,
                hand,
                side,
                top_card,
            ),
    decreases n,
{
    if n > 0 && side[si]@.len() > 0 {
        lemma_side_moves_onto_ok(field, hand, side, top_card, si, n - 1);
        let prev = side_moves_onto(side[si]@, si, field, n - 1);
        let cur = side_moves_onto(side[si]@, si, field, n);
        assert forall|k: int| 0 <= k < cur.len() implies move_ok(
            cur[k],
            field,
            hand,
            side,
            top_card,
        ) by {
            if k < prev.len() {
                assert(cur[k] == prev[k]);
            }
        }
    }
}

proof fn lemma_side_moves_ok(
    field: Seq<(i8, bool)>,
    hand: Seq<i8>,
    side: Seq<Vec<i8>>,
    top_card: i8,
    n: int,
)
    requires
        field.len() == 4,
        side.len() == 4,
        0 <= n <= 4,
    ensures
        forall|k: int|
            0 <= k < side_moves_upto(side, field, n).len() ==> move_ok(
                #[trigger] side_moves_upto(side, field, n)[k],
                field,
                hand,
                side,
                top_card,
            ),
    decreases n,
{
    if n > 0 {
        lemma_side_moves_ok(field, hand, side, top_card, n - 1);
        lemma_side_moves_onto_ok(field, hand, side, top_card, n - 1, 4);
        let prev = side_moves_upto(side, field, n - 1);
        let tail = side_moves_onto(side[n - 1]@, n - 1, field, 4);
        let cur = side_moves_upto(side, field, n);
        assert forall|k: int| 0 <= k < cur.len() implies move_ok(
            cur[k],
            field,
            hand,
            side,
            top_card,
        ) by {
            if k < prev.len() {
                assert(cur[k] == prev[k]);
            } else {
                assert(cur[k] == tail[k - prev.len()]);
            }
        }
    }
}

/// Every enumerated legal move names an existing source slot and a card
/// the destination field stack accepts.
pub proof fn lemma_valid_moves_ok(
    field: Seq<(i8, bool)>,
    hand: Seq<i8>,
    side: Seq<Vec<i8>>,
    top_card: i8,
)
    requires
        field.len() == 4,
        side.len() == 4,
        hand.len() <= 127,
    ensures
        forall|k: int|
            0 <= k < valid_moves_seq(field, hand, side, top_card).len() ==> move_ok(
                #[trigger] valid_moves_seq(field, hand, side, top_card)[k],
                field,
                hand,
                side,
                top_card,
            ),
{
    lemma_stack_moves_ok(field, hand, side, top_card, 4);
    lemma_hand_moves_ok(field, hand, side, top_card, 4);
    lemma_side_moves_ok(field, hand, side, top_card, 4);
}

proof fn lemma_stack_moves_front(field: Seq<(i8, bool)>, top_card: i8, n: int)
    requires
        field.len() == 4,
        0 <= n <= 4,
    ensures
        forall|k: int|
            0 <= k < stack_moves_upto(field, top_card, n).len() ==> (#[trigger] stack_moves_upto(
                field,
                top_card,
                n,
            )[k]).from == CardStack::Stack,
        (exists|i: int| 0 <= i < n && #[trigger] can_place(top_card, field[i].0, field[i].1))
            ==> stack_moves_upto(field, top_card, n).len() > 0,
    decreases n,
{
    if n > 0 {
        lemma_stack_moves_front(field, top_card, n - 1);
        let prev = stack_moves_upto(field, top_card, n - 1);
        let cur = stack_moves_upto(field, top_card, n);
        assert forall|k: int| 0 <= k < cur.len() implies (cur[k]).from == CardStack::Stack by {
            if k < prev.len() {
                assert(cur[k] == prev[k]);
            }
        }
    }
}

/// Draw-stack priority: whenever the draw-stack top fits some field
/// stack, the enumeration is non-empty and its first move comes from
/// the draw stack — the move on which a draw stack strictly shrinks,
/// and the one the strategies see first.
pub proof fn lemma_direct_stack_play_first(
    field: Seq<(i8, bool)>,
    hand: Seq<i8>,
    side: Seq<Vec<i8>>,
    top_card: i8,
)
    requires
        field.len() == 4,
        exists|i: int| 0 <= i < 4 && #[trigger] can_place(top_card, field[i].0, field[i].1),
    ensures
        valid_moves_seq(field, hand, side, top_card).len() > 0,
        valid_moves_seq(field, hand, side, top_card)[0].from == CardStack::Stack,
{
    lemma_stack_moves_front(field, top_card, 4);
    assert(valid_moves_seq(field, hand, side, top_card)[0] == stack_moves_upto(
        field,
        top_card,
        4,
    )[0]);
}

/// Move legality round-trip: every move the enumeration returns can be
/// handed to `execute_move` without hitting any of its invariant
/// checks, for every well-formed player whose draw stack still holds
/// the given top card.
pub proof fn lemma_legal_moves_executable(p: PlayerState, field: Seq<(i8, bool)>)
    requires
        p.wf(),
        field_wf(field),
        p.stack@.len() > 0,
        p.hand@.len() <= 127,
    ensures
        forall|k: int|
            0 <= k < valid_moves_seq(field, p.hand@, p.side@, p.stack@.last()).len()
                ==> move_executable(
                #[trigger] valid_moves_seq(field, p.hand@, p.side@, p.stack@.last())[k],
                p,
                field,
            ),
{
    lemma_valid_moves_ok(field, p.hand@, p.side@, p.stack@.last());
}

/// Joker-no-stack invariant: the enumeration never offers a Joker onto
/// a field stack whose Joker flag is already raised.
pub proof fn lemma_no_joker_on_active_stack(
    field: Seq<(i8, bool)>,
    hand: Seq<i8>,
    side: Seq<Vec<i8>>,
    top_card: i8,
)
    requires
        field_wf(field),
        side.len() == 4,
        hand.len() <= 127,
    ensures
        forall|k: int|
            0 <= k < valid_moves_seq(field, hand, side, top_card).len() ==> (candidate_card(
                #[trigger] valid_moves_seq(field, hand, side, top_card)[k],
                hand,
                side,
                top_card,
            ) == JOKER ==> field[valid_moves_seq(field, hand, side, top_card)[k].to_num as int].1
                == false),
{
    lemma_valid_moves_ok(field, hand, side, top_card);
}

proof fn lemma_stack_move_enumerated(field: Seq<(i8, bool)>, top_card: i8, t: int, n: int)
    requires
        field.len() == 4,
        0 <= t < n <= 4,
        can_place(top_card, field[t].0, field[t].1),
    ensures
        stack_moves_upto(field, top_card, n).contains(
            Move { from: CardStack::Stack, from_num: 0, to: CardStack::Field, to_num: t as i8 },
        ),
    decreases n,
{
    let mv = Move { from: CardStack::Stack, from_num: 0, to: CardStack::Field, to_num: t as i8 };
    let prev = stack_moves_upto(field, top_card, n - 1);
    let cur = stack_moves_upto(field, top_card, n);
    if t == n - 1 {
        assert(cur[prev.len() as int] == mv);
    } else {
        lemma_stack_move_enumerated(field, top_card, t, n - 1);
        let k = choose|k: int| 0 <= k < prev.len() && prev[k] == mv;
        assert(cur[k] == mv);
    }
}

proof fn lemma_hand_move_enumerated_onto(f: (i8, bool), fi: int, hand: Seq<i8>, h: int, n: int)
    requires
        0 <= h < n <= hand.len(),
        hand.len() <= 127,
        can_place(hand[h], f.0, f.1),
    ensures
        hand_moves_onto(f, fi, hand, n).contains(
            Move { from: CardStack::Hand, from_num: h as i8, to: CardStack::Field, to_num: fi as i8 },
        ),
    decreases n,
{
    let mv = Move { from: CardStack::Hand, from_num: h as i8, to: CardStack::Field, to_num: fi as i8 };
    let prev = hand_moves_onto(f, fi, hand, n - 1);
    let cur = hand_moves_onto(f, fi, hand, n);
    if h == n - 1 {
        assert(cur[prev.len() as int] == mv);
    } else {
        lemma_hand_move_enumerated_onto(f, fi, hand, h, n - 1);
        let k = choose|k: int| 0 <= k < prev.len() && prev[k] == mv;
        assert(cur[k] == mv);
    }
}

proof fn lemma_hand_move_enumerated(field: Seq<(i8, bool)>, hand: Seq<i8>, h: int, t: int, n: int)
    requires
        field.len() == 4,
        0 <= t < n <= 4,
        0 <= h < hand.len(),
        hand.len() <= 127,
        can_place(hand[h], field[t].0, field[t].1),
    ensures
        hand_moves_upto(field, hand, n).contains(
            Move { from: CardStack::Hand, from_num: h as i8, to: CardStack::Field, to_num: t as i8 },
        ),
    decreases n,
{
    let mv = Move { from: CardStack::Hand, from_num: h as i8, to: CardStack::Field, to_num: t as i8 };
    let prev = hand_moves_upto(field, hand, n - 1);
    let tail = hand_moves_onto(field[n - 1], n - 1, hand, hand.len() as int);
    let cur = hand_moves_upto(field, hand, n);
    if t == n - 1 {
        lemma_hand_move_enumerated_onto(field[t], t, hand, h, hand.len() as int);
        let k = choose|k: int| 0 <= k < tail.len() && tail[k] == mv;
        assert(cur[prev.len() + k] == mv);
    } else {
        lemma_hand_move_enumerated(field, hand, h, t, n - 1);
        let k = choose|k: int| 0 <= k < prev.len() && prev[k] == mv;
        assert(cur[k] == mv);
    }
}

proof fn lemma_side_move_enumerated_onto(s: Seq<i8>, si: int, field: Seq<(i8, bool)>, t: int, n: int)
    requires
        field.len() == 4,
        0 <= t < n <= 4,
        0 <= si < 4,
        s.len() > 0,
        can_place(s.last(), field[t].0, field[t].1),
    ensures
        side_moves_onto(s, si, field, n).contains(
            Move { from: CardStack::Side, from_num: si as i8, to: CardStack::Field, to_num: t as i8 },
        ),
    decreases n,
{
    let mv = Move { from: CardStack::Side, from_num: si as i8, to: CardStack::Field, to_num: t as i8 };
    let prev = side_moves_onto(s, si, field, n - 1);
    let cur = side_moves_onto(s, si, field, n);
    if t == n - 1 {
        assert(cur[prev.len() as int] == mv);
    } else {
        lemma_side_move_enumerated_onto(s, si, field, t, n - 1);
        let k = choose|k: int| 0 <= k < prev.len() && prev[k] == mv;
        assert(cur[k] == mv);
    }
}

proof fn lemma_side_move_enumerated(
    side: Seq<Vec<i8>>,
    field: Seq<(i8, bool)>,
    si: int,
    t: int,
    n: int,
)
    requires
        field.len() == 4,
        side.len() == 4,
        0 <= si < n <= 4,
        0 <= t < 4,
        side[si]@.len() > 0,
        can_place(side[si]@.last(), field[t].0, field[t].1),
    ensures
        side_moves_upto(side, field, n).contains(
            Move { from: CardStack::Side, from_num: si as i8, to: CardStack::Field, to_num: t as i8 },
        ),
    decreases n,
{
    let mv = Move { from: CardStack::Side, from_num: si as i8, to: CardStack::Field, to_num: t as i8 };
    let prev = side_moves_upto(side, field, n - 1);
    let tail = side_moves_onto(side[n - 1]@, n - 1, field, 4);
    let cur = side_moves_upto(side, field, n);
    if si == n - 1 {
        lemma_side_move_enumerated_onto(side[si]@, si, field, t, 4);
        let k = choose|k: int| 0 <= k < tail.len() && tail[k] == mv;
        assert(cur[prev.len() + k] == mv);
    } else {
        lemma_side_move_enumerated(side, field, si, t, n - 1);
        let k = choose|k: int| 0 <= k < prev.len() && prev[k] == mv;
        assert(cur[k] == mv);
    }
}

/// Enumeration completeness, the converse of the round-trip law: every
/// move that is legal for the given field, hand, side stacks, and
/// draw-stack top appears in the enumeration.
pub proof fn lemma_move_ok_in_enumeration(
    field: Seq<(i8, bool)>,
    hand: Seq<i8>,
    side: Seq<Vec<i8>>,
    top_card: i8,
    m: Move,
)
    requires
        field.len() == 4,
        side.len() == 4,
        hand.len() <= 127,
        move_ok(m, field, hand, side, top_card),
    ensures
        valid_moves_seq(field, hand, side, top_card).contains(m),
{
    let a = stack_moves_upto(field, top_card, 4);
    let b = hand_moves_upto(field, hand, 4);
    let c = side_moves_upto(side, field, 4);
    let all = valid_moves_seq(field, hand, side, top_card);
    match m.from {
        CardStack::Stack => {
            lemma_stack_move_enumerated(field, top_card, m.to_num as int, 4);
            let k = choose|k: int| 0 <= k < a.len() && a[k] == m;
            assert(all[k] == m);
        },
        CardStack::Hand => {
            lemma_hand_move_enumerated(field, hand, m.from_num as int, m.to_num as int, 4);
            let k = choose|k: int| 0 <= k < b.len() && b[k] == m;
            assert(all[a.len() + k] == m);
        },
        CardStack::Side => {
            lemma_side_move_enumerated(side, field, m.from_num as int, m.to_num as int, 4);
            let k = choose|k: int| 0 <= k < c.len() && c[k] == m;
            assert(all[a.len() + b.len() + k] == m);
        },
        CardStack::Field => {},
    }
}

/// The player state `p1` is `p0` with the card of hand slot `k` moved
/// onto side stack `j`: the discard that ends a turn.
pub open spec fn discard_applied(p0: PlayerState, p1: PlayerState, k: int, j: int) -> bool {
    &&& 0 <= k < p0.hand@.len()
    &&& 0 <= j < 4
    &&& p1.hand@ == p0.hand@.remove(k)
    &&& p1.side@[j]@ == p0.side@[j]@.push(p0.hand@[k])
    &&& forall|jj: int| 0 <= jj < 4 && jj != j ==> p1.side@[jj] == p0.side@[jj]
    &&& p1.stack == p0.stack
}

/// The player state `p1` and field `f1` are `p0` and `f0` with the
/// field move `m` applied: the named field stack updated with the
/// card the move transfers, that card gone from its source, and
/// everything else untouched.
pub open spec fn field_move_applied(
    p0: PlayerState,
    p1: PlayerState,
    f0: Seq<(i8, bool)>,
    f1: Seq<(i8, bool)>,
    m: Move,
) -> bool {
    &&& f1 == f0.update(
        m.to_num as int,
        field_after(candidate_card(m, p0.hand@, p0.side@, p0.stack@.last()), f0[m.to_num as int].0),
    )
    &&& match m.from {
        CardStack::Stack => p1.stack@ == p0.stack@.drop_last() && p1.hand == p0.hand && (forall|
            j: int,
        |
            0 <= j < 4 ==> p1.side@[j] == p0.side@[j]),
        CardStack::Hand => p1.hand@ == p0.hand@.remove(m.from_num as int) && p1.stack == p0.stack
            && (forall|j: int| 0 <= j < 4 ==> p1.side@[j] == p0.side@[j]),
        CardStack::Side => p1.side@[m.from_num as int]@ == p0.side@[m.from_num
            as int]@.drop_last() && (forall|j: int|
            0 <= j < 4 && j != m.from_num as int ==> p1.side@[j] == p0.side@[j]) && p1.hand
            == p0.hand && p1.stack == p0.stack,
        CardStack::Field => false,
    }
}

/// How many cards the player owns in all: draw stack, hand, and the
/// four side stacks together.
pub open spec fn total_cards(p: PlayerState) -> int {
    p.stack@.len() as int + p.hand@.len() + p.side@[0]@.len() + p.side@[1]@.len()
        + p.side@[2]@.len() + p.side@[3]@.len()
}

/// A running match: the four shared field stacks, the players in seat
/// order, the terminal flag, and the winner's seat (`-1` until the game
/// ends).
pub struct SkipBoGame {
    pub playing_field: [(i8, bool); 4],
    pub players: Vec<PlayerState>,
    pub end: bool,
    pub winner: i8,
    pub rng: rand::rngs::ThreadRng,
}

impl SkipBoGame {
    /// Well-formedness: valid field tops, well-formed players, a player
    /// count that fits the seat index type, and a winner that is either
    /// unset or a real seat.
    pub open spec fn wf(&self) -> bool {
        &&& field_wf(self.playing_field@)
        &&& forall|i: int|
            0 <= i < self.players@.len() ==> (#[trigger] self.players@[i]).wf()
        &&& self.players@.len() <= 127
        &&& (self.winner == -1 || 0 <= self.winner < self.players@.len())
    }

    /// The match is over with a recorded winner whose draw stack is
    /// empty.
    pub open spec fn decided(&self) -> bool {
        &&& self.end
        &&& 0 <= self.winner < self.players@.len()
        &&& self.players@[self.winner as int].stack@.len() == 0
    }

    /// A new match over the given players: all four field stacks start
    /// at `12` ("empty, next card is 1"), no winner yet.
    pub fn new(players: Vec<PlayerState>) -> (g: SkipBoGame)
        requires
            forall|i: int| 0 <= i < players@.len() ==> (#[trigger] players@[i]).wf(),
            players@.len() <= 127,
        ensures
            g.wf(),
            g.playing_field@ =~= seq![(12i8, false), (12i8, false), (12i8, false), (12i8, false)],
            g.players == players,
            g.end == false,
            g.winner == -1,
    {
        SkipBoGame {
            playing_field: [(12, false), (12, false), (12, false), (12, false)],
            players,
            end: false,
            winner: -1,
            rng: fresh_rng(),
        }
    }

    /// Moves the top card of the acting player's draw stack onto field
    /// stack `stack`, applying the field update rule.
    pub fn to_playing_field_from_stack(&mut self, player_num: i8, stack: i8)
        requires
            old(self).wf(),
            0 <= player_num < old(self).players@.len(),
            0 <= stack < 4,
            old(self).players@[player_num as int].stack@.len() > 0,
        ensures
            final(self).wf(),
            final(self).playing_field@ == old(self).playing_field@.update(
                stack as int,
                field_after(
                    old(self).players@[player_num as int].stack@.last(),
                    old(self).playing_field@[stack as int].0,
                ),
            ),
            final(self).players@.len() == old(self).players@.len(),
            forall|i: int|
                0 <= i < old(self).players@.len() && i != player_num as int
                    ==> final(self).players@[i] == old(self).players@[i],
            final(self).players@[player_num as int].stack@ == old(
                self,
            ).players@[player_num as int].stack@.drop_last(),
            final(self).players@[player_num as int].hand == old(
                self,
            ).players@[player_num as int].hand,
            final(self).players@[player_num as int].side == old(
                self,
            ).players@[player_num as int].side,
            final(self).end == old(self).end,
            final(self).winner == old(self).winner,
            final(self).rng == old(self).rng,
    {
        let pn = player_num as usize;
        let si = stack as usize;
        let top_len = self.players[pn].stack.len();
        let card = self.players[pn].stack[top_len - 1];

        if card == JOKER {
            if self.playing_field[si].0 == 12 {
                self.playing_field[si] = (1, true);
            } else {
                let t = self.playing_field[si].0;
                self.playing_field[si] = (t + 1, true);
            }
        } else {
            self.playing_field[si] = (card, false);
        }

        self.players[pn].stack.pop();
    }

    /// Moves the card in hand slot `stack_hand` onto field stack
    /// `stack_field`, applying the field update rule.
    pub fn to_playing_field_from_hand(&mut self, player_num: i8, stack_field: i8, stack_hand: i8)
        requires
            old(self).wf(),
            0 <= player_num < old(self).players@.len(),
            0 <= stack_field < 4,
            0 <= stack_hand < old(self).players@[player_num as int].hand@.len(),
        ensures
            final(self).wf(),
            final(self).playing_field@ == old(self).playing_field@.update(
                stack_field as int,
                field_after(
                    old(self).players@[player_num as int].hand@[stack_hand as int],
                    old(self).playing_field@[stack_field as int].0,
                ),
            ),
            final(self).players@.len() == old(self).players@.len(),
            forall|i: int|
                0 <= i < old(self).players@.len() && i != player_num as int
                    ==> final(self).players@[i] == old(self).players@[i],
            final(self).players@[player_num as int].hand@ == old(
                self,
            ).players@[player_num as int].hand@.remove(stack_hand as int),
            final(self).players@[player_num as int].stack == old(
                self,
            ).players@[player_num as int].stack,
            final(self).players@[player_num as int].side == old(
                self,
            ).players@[player_num as int].side,
            final(self).end == old(self).end,
            final(self).winner == old(self).winner,
            final(self).rng == old(self).rng,
    {
        let pn = player_num as usize;
        let fi = stack_field as usize;
        let card = self.players[pn].hand[stack_hand as usize];

        if card == JOKER {
            if self.playing_field[fi].0 == 12 {
                self.playing_field[fi] = (1, true);
            } else {
                let t = self.playing_field[fi].0;
                self.playing_field[fi] = (t + 1, true);
            }
        } else {
            self.playing_field[fi] = (card, false);
        }

        self.players[pn].hand.remove(stack_hand as usize);
    }

    /// Moves the top card of side stack `stack_side` onto field stack
    /// `stack_field`, applying the field update rule.
    pub fn to_playing_field_from_side(&mut self, player_num: i8, stack_field: i8, stack_side: i8)
        requires
            old(self).wf(),
            0 <= player_num < old(self).players@.len(),
            0 <= stack_field < 4,
            0 <= stack_side < 4,
            old(self).players@[player_num as int].side@[stack_side as int]@.len() > 0,
        ensures
            final(self).wf(),
            final(self).playing_field@ == old(self).playing_field@.update(
                stack_field as int,
                field_after(
                    old(self).players@[player_num as int].side@[stack_side as int]@.last(),
                    old(self).playing_field@[stack_field as int].0,
                ),
            ),
            final(self).players@.len() == old(self).players@.len(),
            forall|i: int|
                0 <= i < old(self).players@.len() && i != player_num as int
                    ==> final(self).players@[i] == old(self).players@[i],
            final(self).players@[player_num as int].side@[stack_side as int]@ == old(
                self,
            ).players@[player_num as int].side@[stack_side as int]@.drop_last(),
            forall|j: int|
                0 <= j < 4 && j != stack_side as int
                    ==> final(self).players@[player_num as int].side@[j] == old(
                    self,
                ).players@[player_num as int].side@[j],
            final(self).players@[player_num as int].hand == old(
                self,
            ).players@[player_num as int].hand,
            final(self).players@[player_num as int].stack == old(
                self,
            ).players@[player_num as int].stack,
            final(self).end == old(self).end,
            final(self).winner == old(self).winner,
            final(self).rng == old(self).rng,
    {
        let pn = player_num as usize;
        let fi = stack_field as usize;
        let si = stack_side as usize;
        let top_len = self.players[pn].side[si].len();
        let card = self.players[pn].side[si][top_len - 1];

        if card == JOKER {
            if self.playing_field[fi].0 == 12 {
                self.playing_field[fi] = (1, true);
            } else {
                let t = self.playing_field[fi].0;
                self.playing_field[fi] = (t + 1, true);
            }
        } else {
            self.playing_field[fi] = (card, false);
        }

        self.players[pn].side[si].pop();
    }

    /// Moves the card in hand slot `stack_hand` onto side stack
    /// `stack_side`: the end-of-turn discard.
    pub fn to_side(&mut self, player_num: i8, stack_hand: i8, stack_side: i8)
        requires
            old(self).wf(),
            0 <= player_num < old(self).players@.len(),
            0 <= stack_hand < old(self).players@[player_num as int].hand@.len(),
            0 <= stack_side < 4,
        ensures
            final(self).wf(),
            final(self).playing_field == old(self).playing_field,
            final(self).players@.len() == old(self).players@.len(),
            forall|i: int|
                0 <= i < old(self).players@.len() && i != player_num as int
                    ==> final(self).players@[i] == old(self).players@[i],
            final(self).players@[player_num as int].hand@ == old(
                self,
            ).players@[player_num as int].hand@.remove(stack_hand as int),
            final(self).players@[player_num as int].side@[stack_side as int]@ == old(
                self,
            ).players@[player_num as int].side@[stack_side as int]@.push(
                old(self).players@[player_num as int].hand@[stack_hand as int],
            ),
            forall|j: int|
                0 <= j < 4 && j != stack_side as int
                    ==> final(self).players@[player_num as int].side@[j] == old(
                    self,
                ).players@[player_num as int].side@[j],
            final(self).players@[player_num as int].stack == old(
                self,
            ).players@[player_num as int].stack,
            final(self).end == old(self).end,
            final(self).winner == old(self).winner,
            final(self).rng == old(self).rng,
    {
        let pn = player_num as usize;
        let card = self.players[pn].hand[stack_hand as usize];
        self.players[pn].side[stack_side as usize].push(card);
        self.players[pn].hand.remove(stack_hand as usize);
    }

    /// Applies one move by dispatching on its source and destination.
    pub fn execute_move(&mut self, player_num: i8, m: &Move)
        requires
            old(self).wf(),
            0 <= player_num < old(self).players@.len(),
            move_executable(*m, old(self).players@[player_num as int], old(self).playing_field@),
        ensures
            final(self).wf(),
            final(self).players@.len() == old(self).players@.len(),
            forall|i: int|
                0 <= i < old(self).players@.len() && i != player_num as int
                    ==> final(self).players@[i] == old(self).players@[i],
            final(self).end == old(self).end,
            final(self).winner == old(self).winner,
            m.to == CardStack::Field ==> final(self).playing_field@ == old(
                self,
            ).playing_field@.update(
                m.to_num as int,
                field_after(
                    candidate_card(
                        *m,
                        old(self).players@[player_num as int].hand@,
                        old(self).players@[player_num as int].side@,
                        old(self).players@[player_num as int].stack@.last(),
                    ),
                    old(self).playing_field@[m.to_num as int].0,
                ),
            ),
            m.to == CardStack::Side ==> final(self).playing_field == old(self).playing_field,
            m.from == CardStack::Stack ==> final(self).players@[player_num as int].stack@ == old(
                self,
            ).players@[player_num as int].stack@.drop_last(),
            m.from != CardStack::Stack ==> final(self).players@[player_num as int].stack == old(
                self,
            ).players@[player_num as int].stack,
            m.from == CardStack::Hand ==> final(self).players@[player_num as int].hand@ == old(
                self,
            ).players@[player_num as int].hand@.remove(m.from_num as int),
            m.from != CardStack::Hand ==> final(self).players@[player_num as int].hand == old(
                self,
            ).players@[player_num as int].hand,
            m.from == CardStack::Side ==> final(self).players@[player_num as int].side@[m.from_num
                as int]@ == old(
                self,
            ).players@[player_num as int].side@[m.from_num as int]@.drop_last(),
            m.from == CardStack::Hand && m.to == CardStack::Side ==> final(self).players@[
                player_num as int].side@[m.to_num as int]@ == old(
                self,
            ).players@[player_num as int].side@[m.to_num as int]@.push(
                old(self).players@[player_num as int].hand@[m.from_num as int],
            ),
            forall|j: int|
                0 <= j < 4 && (m.from != CardStack::Side || j != m.from_num as int) && (m.from
                    != CardStack::Hand || m.to != CardStack::Side || j != m.to_num as int)
                    ==> final(self).players@[player_num as int].side@[j] == old(
                    self,
                ).players@[player_num as int].side@[j],
            final(self).rng == old(self).rng,
    {
        if m.from == CardStack::Stack {
            self.to_playing_field_from_stack(player_num, m.to_num);
        }

        if m.from == CardStack::Hand {
            if m.to == CardStack::Field {
                self.to_playing_field_from_hand(player_num, m.to_num, m.from_num);
            } else if m.to == CardStack::Side {
                self.to_side(player_num, m.from_num, m.to_num);
            }
        }

        if m.from == CardStack::Side {
            self.to_playing_field_from_side(player_num, m.to_num, m.from_num);
        }
    }

    /// Refills the acting player's hand up to five cards with fresh
    /// random draws; a hand already holding five or more is untouched.
    pub fn refill_hand(&mut self, player_num: i8)
        requires
            old(self).wf(),
            0 <= player_num < old(self).players@.len(),
        ensures
            final(self).wf(),
            final(self).playing_field == old(self).playing_field,
            final(self).players@.len() == old(self).players@.len(),
            forall|i: int|
                0 <= i < old(self).players@.len() && i != player_num as int
                    ==> final(self).players@[i] == old(self).players@[i],
            final(self).players@[player_num as int].hand@.len() == if old(
                self,
            ).players@[player_num as int].hand@.len() < 5 {
                5int
            } else {
                old(self).players@[player_num as int].hand@.len() as int
            },
            final(self).players@[player_num as int].hand@.subrange(
                0,
                old(self).players@[player_num as int].hand@.len() as int,
            ) == old(self).players@[player_num as int].hand@,
            final(self).players@[player_num as int].stack == old(
                self,
            ).players@[player_num as int].stack,
            final(self).players@[player_num as int].side == old(
                self,
            ).players@[player_num as int].side,
            final(self).end == old(self).end,
            final(self).winner == old(self).winner,
    {
        let pn = player_num as usize;
        while self.players[pn].hand.len() < 5
            invariant
                self.wf(),
                pn == player_num as int,
                0 <= player_num < self.players@.len(),
                self.players@.len() == old(self).players@.len(),
                self.playing_field == old(self).playing_field,
                forall|i: int|
                    0 <= i < old(self).players@.len() && i != player_num as int
                        ==> self.players@[i] == old(self).players@[i],
                self.players@[player_num as int].hand@.len() >= old(
                    self,
                ).players@[player_num as int].hand@.len(),
                self.players@[player_num as int].hand@.len() > old(
                    self,
                ).players@[player_num as int].hand@.len() ==> self.players@[player_num as
                    int].hand@.len() <= 5,
                self.players@[player_num as int].hand@.subrange(
                    0,
                    old(self).players@[player_num as int].hand@.len() as int,
                ) == old(self).players@[player_num as int].hand@,
                self.players@[player_num as int].stack == old(
                    self,
                ).players@[player_num as int].stack,
                self.players@[player_num as int].side == old(
                    self,
                ).players@[player_num as int].side,
                self.end == old(self).end,
                self.winner == old(self).winner,
            decreases 5 - self.players@[player_num as int].hand@.len(),
        {
            let c = draw_deal_card(&mut self.rng);
            self.players[pn].hand.push(c);
        }
    }

    /// Enumerates every move the acting player could legally make, in
    /// the order the strategies rely on: draw-stack candidates by field
    /// index, then hand candidates (field outer, hand inner), then side
    /// candidates (side outer, field inner).
    pub fn get_valid_moves(
        &self,
        playing_field: &[(i8, bool); 4],
        hand: &Vec<i8>,
        side: &[Vec<i8>; 4],
        stack: &Vec<i8>,
    ) -> (r: Vec<Move>)
        requires
            field_wf(playing_field@),
            stack@.len() > 0,
            hand@.len() <= 127,
        ensures
            r@ == valid_moves_seq(playing_field@, hand@, side@, stack@.last()),
            forall|k: int|
                0 <= k < r@.len() ==> move_ok(
                    #[trigger] r@[k],
                    playing_field@,
                    hand@,
                    side@,
                    stack@.last(),
                ),
    {
        let mut valid_moves: Vec<Move> = Vec::new();
        let stack_len = stack.len();
        let l = stack[stack_len - 1];

        let mut i: usize = 0;
        while i < 4
            invariant
                i <= 4,
                l == stack@.last(),
                field_wf(playing_field@),
                valid_moves@ == stack_moves_upto(playing_field@, l, i as int),
            decreases 4 - i,
        {
            let f = playing_field[i];
            if l == f.0 + 1 || (f.0 == 12 && l == 1) || (l == JOKER && !f.1) {
                valid_moves.push(
                    Move {
                        from: CardStack::Stack,
                        from_num: 0,
                        to: CardStack::Field,
                        to_num: i as i8,
                    },
                );
            }
            proof {
                assert(valid_moves@ =~= stack_moves_upto(playing_field@, l, i as int + 1));
            }
            i = i + 1;
        }

        let mut fi: usize = 0;
        while fi < 4
            invariant
                fi <= 4,
                l == stack@.last(),
                field_wf(playing_field@),
                hand@.len() <= 127,
                valid_moves@ == stack_moves_upto(playing_field@, l, 4) + hand_moves_upto(
                    playing_field@,
                    hand@,
                    fi as int,
                ),
            decreases 4 - fi,
        {
            let f = playing_field[fi];
            let mut hi: usize = 0;
            while hi < hand.len()
                invariant
                    fi < 4,
                    hi <= hand@.len(),
                    hand@.len() <= 127,
                    l == stack@.last(),
                    field_wf(playing_field@),
                    f == playing_field@[fi as int],
                    valid_moves@ == stack_moves_upto(playing_field@, l, 4) + hand_moves_upto(
                        playing_field@,
                        hand@,
                        fi as int,
                    ) + hand_moves_onto(f, fi as int, hand@, hi as int),
                decreases hand@.len() - hi,
            {
                let h = hand[hi];
                if f.0 + 1 == h || (h == JOKER && !f.1) || (f.0 == 12 && h == 1) {
                    valid_moves.push(
                        Move {
                            from: CardStack::Hand,
                            from_num: hi as i8,
                            to: CardStack::Field,
                            to_num: fi as i8,
                        },
                    );
                }
                proof {
                    assert(valid_moves@ =~= stack_moves_upto(playing_field@, l, 4)
                        + hand_moves_upto(playing_field@, hand@, fi as int) + hand_moves_onto(
                        f,
                        fi as int,
                        hand@,
                        hi as int + 1,
                    ));
                }
                hi = hi + 1;
            }
            proof {
                assert(valid_moves@ =~= stack_moves_upto(playing_field@, l, 4) + hand_moves_upto(
                    playing_field@,
                    hand@,
                    fi as int + 1,
                ));
            }
            fi = fi + 1;
        }

        let mut si: usize = 0;
        while si < 4
            invariant
                si <= 4,
                l == stack@.last(),
                field_wf(playing_field@),
                valid_moves@ == stack_moves_upto(playing_field@, l, 4) + hand_moves_upto(
                    playing_field@,
                    hand@,
                    4,
                ) + side_moves_upto(side@, playing_field@, si as int),
            decreases 4 - si,
        {
            let mut fj: usize = 0;
            while fj < 4
                invariant
                    si < 4,
                    fj <= 4,
                    l == stack@.last(),
                    field_wf(playing_field@),
                    valid_moves@ == stack_moves_upto(playing_field@, l, 4) + hand_moves_upto(
                        playing_field@,
                        hand@,
                        4,
                    ) + side_moves_upto(side@, playing_field@, si as int) + side_moves_onto(
                        side@[si as int]@,
                        si as int,
                        playing_field@,
                        fj as int,
                    ),
                decreases 4 - fj,
            {
                let f = playing_field[fj];
                let s_len = side[si].len();
                if s_len > 0 {
                    let sc = side[si][s_len - 1];
                    if f.0 + 1 == sc || (sc == JOKER && !f.1) || (f.0 == 12 && sc == 1) {
                        valid_moves.push(
                            Move {
                                from: CardStack::Side,
                                from_num: si as i8,
                                to: CardStack::Field,
                                to_num: fj as i8,
                            },
                        );
                    }
                }
                proof {
                    assert(valid_moves@ =~= stack_moves_upto(playing_field@, l, 4)
                        + hand_moves_upto(playing_field@, hand@, 4) + side_moves_upto(
                        side@,
                        playing_field@,
                        si as int,
                    ) + side_moves_onto(side@[si as int]@, si as int, playing_field@, fj as int
                        + 1));
                }
                fj = fj + 1;
            }
            proof {
                assert(valid_moves@ =~= stack_moves_upto(playing_field@, l, 4) + hand_moves_upto(
                    playing_field@,
                    hand@,
                    4,
                ) + side_moves_upto(side@, playing_field@, si as int + 1));
            }
            si = si + 1;
        }

        proof {
            assert(valid_moves@ =~= valid_moves_seq(playing_field@, hand@, side@, stack@.last()));
            lemma_valid_moves_ok(playing_field@, hand@, side@, stack@.last());
        }
        valid_moves
    }

    /// Reports whether some player has emptied their draw stack; the
    /// first time this holds it records the terminal flag and the
    /// winning seat (the lowest such seat).
    pub fn check_win(&mut self) -> (r: bool)
        requires
            old(self).wf(),
        ensures
            final(self).wf(),
            r == exists|i: int|
                0 <= i < old(self).players@.len() && (#[trigger] old(
                    self,
                ).players@[i]).stack@.len() == 0,
            final(self).players == old(self).players,
            final(self).playing_field == old(self).playing_field,
            final(self).rng == old(self).rng,
            !r ==> final(self).end == old(self).end && final(self).winner == old(self).winner,
            !r ==> forall|i: int|
                0 <= i < old(self).players@.len() ==> (#[trigger] old(
                    self,
                ).players@[i]).stack@.len() > 0,
            r ==> final(self).end == true,
            r ==> 0 <= final(self).winner < old(self).players@.len() && old(
                self,
            ).players@[final(self).winner as int].stack@.len() == 0 && (forall|j: int|
                0 <= j < final(self).winner ==> (#[trigger] old(self).players@[j]).stack@.len()
                    > 0),
    {
        let mut i: usize = 0;
        let n = self.players.len();
        while i < n
            invariant
                self == old(self),
                old(self).wf(),
                n == self.players@.len(),
                0 <= i <= n,
                forall|j: int| 0 <= j < i ==> (#[trigger] self.players@[j]).stack@.len() > 0,
            decreases n - i,
        {
            if self.players[i].stack.len() == 0 {
                self.end = true;
                self.winner = i as i8;
                return true;
            }
            i = i + 1;
        }
        false
    }

    /// One decision step of a turn: enumerate the legal moves, let the
    /// strategy pick one and apply it (the turn goes on), or apply the
    /// strategy's discard when nothing is legal or it declines (the
    /// turn ends). Returns whether the turn goes on.
    pub fn play_move<P: Player>(&mut self, player_num: i8, player: &P) -> (r: bool)
        requires
            old(self).wf(),
            0 <= player_num < old(self).players@.len(),
            old(self).players@[player_num as int].hand@.len() > 0,
            old(self).players@[player_num as int].hand@.len() <= 127,
            forall|i: int|
                0 <= i < old(self).players@.len() ==> (#[trigger] old(
                    self,
                ).players@[i]).stack@.len() > 0,
        ensures
            final(self).wf(),
            final(self).players@.len() == old(self).players@.len(),
            final(self).end == old(self).end,
            final(self).winner == old(self).winner,
            forall|i: int|
                0 <= i < old(self).players@.len() && i != player_num as int
                    ==> final(self).players@[i] == old(self).players@[i],
            final(self).players@[player_num as int].hand@.len() <= old(
                self,
            ).players@[player_num as int].hand@.len(),
            final(self).players@[player_num as int].stack@.len() <= old(
                self,
            ).players@[player_num as int].stack@.len(),
            final(self).rng == old(self).rng,
            !r ==> final(self).players@[player_num as int].hand@.len() == old(
                self,
            ).players@[player_num as int].hand@.len() - 1 && total_cards(
                final(self).players@[player_num as int],
            ) == total_cards(old(self).players@[player_num as int]) && final(self).playing_field
                == old(self).playing_field && final(self).players@[player_num as int].stack == old(
                self,
            ).players@[player_num as int].stack,
            !r ==> exists|k: int, j: int|
                discard_applied(
                    old(self).players@[player_num as int],
                    final(self).players@[player_num as int],
                    k,
                    j,
                ),
            r ==> total_cards(final(self).players@[player_num as int]) == total_cards(
                old(self).players@[player_num as int],
            ) - 1,
            r ==> valid_moves_seq(
                old(self).playing_field@,
                old(self).players@[player_num as int].hand@,
                old(self).players@[player_num as int].side@,
                old(self).players@[player_num as int].stack@.last(),
            ).len() > 0,
            r ==> exists|k: int|
                0 <= k < valid_moves_seq(
                    old(self).playing_field@,
                    old(self).players@[player_num as int].hand@,
                    old(self).players@[player_num as int].side@,
                    old(self).players@[player_num as int].stack@.last(),
                ).len() && field_move_applied(
                    old(self).players@[player_num as int],
                    final(self).players@[player_num as int],
                    old(self).playing_field@,
                    final(self).playing_field@,
                    #[trigger] valid_moves_seq(
                        old(self).playing_field@,
                        old(self).players@[player_num as int].hand@,
                        old(self).players@[player_num as int].side@,
                        old(self).players@[player_num as int].stack@.last(),
                    )[k],
                ),
    {
        let pn = player_num as usize;
        proof {
            assert(old(self).players@[player_num as int].wf());
        }
        let valid_moves = self.get_valid_moves(
            &self.playing_field,
            &self.players[pn].hand,
            &self.players[pn].side,
            &self.players[pn].stack,
        );

        if valid_moves.len() == 0 {
            let move_to_side = player.select_stack(&self.players[pn].hand, &self.players[pn].side);
            self.execute_move(player_num, &move_to_side);
            proof {
                assert(discard_applied(
                    old(self).players@[player_num as int],
                    self.players@[player_num as int],
                    move_to_side.from_num as int,
                    move_to_side.to_num as int,
                ));
            }
            false
        } else {
            let n_players = self.players.len() as i8;
            let opp = ((player_num + 1) % n_players) as usize;
            let own_stack_len = self.players[pn].stack.len();
            let own_top = self.players[pn].stack[own_stack_len - 1];
            let opp_stack_len = self.players[opp].stack.len();
            let opp_top = self.players[opp].stack[opp_stack_len - 1];

            let selected_move = player.select_move(
                &valid_moves,
                own_top,
                opp_top,
                &self.players[pn].side,
                &self.players[pn].hand,
                &self.playing_field,
            );

            match selected_move {
                None => {
                    let move_to_side = player.select_stack(
                        &self.players[pn].hand,
                        &self.players[pn].side,
                    );
                    self.execute_move(player_num, &move_to_side);
                    proof {
                        assert(discard_applied(
                            old(self).players@[player_num as int],
                            self.players@[player_num as int],
                            move_to_side.from_num as int,
                            move_to_side.to_num as int,
                        ));
                    }
                    false
                },
                Some(m) => {
                    self.execute_move(player_num, &m);
                    proof {
                        let p0 = old(self).players@[player_num as int];
                        let moves = valid_moves_seq(
                            old(self).playing_field@,
                            p0.hand@,
                            p0.side@,
                            p0.stack@.last(),
                        );
                        lemma_move_ok_in_enumeration(
                            old(self).playing_field@,
                            p0.hand@,
                            p0.side@,
                            p0.stack@.last(),
                            m,
                        );
                        let k = choose|k: int| 0 <= k < moves.len() && moves[k] == m;
                        assert(field_move_applied(
                            p0,
                            self.players@[player_num as int],
                            old(self).playing_field@,
                            self.playing_field@,
                            moves[k],
                        ));
                    }
                    true
                },
            }
        }
    }

    /// Runs one full turn for the given player: refills the hand, then
    /// repeats decision steps until the strategy ends the turn with a
    /// discard or the match is already decided, refilling an exhausted
    /// hand mid-turn. `fuel` bounds the number of decision steps so
    /// that the loop provably terminates; a turn that would run longer
    /// stops where the fuel ends, and with no fuel at all only the
    /// pre-turn refill happens.
    pub fn play<P: Player>(&mut self, player_num: i8, player: &P, fuel: u32)
        requires
            old(self).wf(),
            0 <= player_num < old(self).players@.len(),
            old(self).players@[player_num as int].hand@.len() <= 127,
        ensures
            final(self).wf(),
            final(self).players@.len() == old(self).players@.len(),
            forall|i: int|
                0 <= i < old(self).players@.len() && i != player_num as int
                    ==> final(self).players@[i] == old(self).players@[i],
            final(self).players@[player_num as int].hand@.len() <= 127,
            final(self).players@[player_num as int].stack@.len() <= old(
                self,
            ).players@[player_num as int].stack@.len(),
            old(self).end ==> final(self).end,
            !final(self).end ==> final(self).winner == old(self).winner,
            old(self).decided() ==> final(self).decided(),
            !old(self).end && final(self).end ==> final(self).decided(),
            fuel > 0 && (exists|i: int|
                0 <= i < old(self).players@.len() && (#[trigger] old(
                    self,
                ).players@[i]).stack@.len() == 0) ==> final(self).end,
            fuel == 0 ==> final(self).playing_field == old(self).playing_field && final(self).end
                == old(self).end && final(self).winner == old(self).winner && final(self).players@[
                player_num as int].stack == old(self).players@[player_num as int].stack
                && final(self).players@[player_num as int].side == old(
                self,
            ).players@[player_num as int].side && final(self).players@[player_num as
                int].hand@.len() == (if old(self).players@[player_num as int].hand@.len() < 5 {
                5int
            } else {
                old(self).players@[player_num as int].hand@.len() as int
            }) && final(self).players@[player_num as int].hand@.subrange(
                0,
                old(self).players@[player_num as int].hand@.len() as int,
            ) == old(self).players@[player_num as int].hand@,
    {
        self.refill_hand(player_num);
        if fuel == 0 {
            return;
        }
        let mut state = true;
        let mut steps: u32 = fuel;
        while state && steps > 0
            invariant
                self.wf(),
                self.players@.len() == old(self).players@.len(),
                0 <= player_num < self.players@.len(),
                state ==> self.players@[player_num as int].hand@.len() > 0,
                self.players@[player_num as int].hand@.len() <= 127,
                self.players@[player_num as int].stack@.len() <= old(
                    self,
                ).players@[player_num as int].stack@.len(),
                old(self).end ==> self.end,
                !self.end ==> self.winner == old(self).winner,
                old(self).decided() ==> self.decided(),
                !old(self).end && self.end ==> self.decided(),
                steps <= fuel,
                steps == fuel ==> self.players@[player_num as int].stack == old(
                    self,
                ).players@[player_num as int].stack,
                (exists|i: int|
                    0 <= i < old(self).players@.len() && (#[trigger] old(
                        self,
                    ).players@[i]).stack@.len() == 0) ==> self.end || (state && steps == fuel),
                forall|i: int|
                    0 <= i < old(self).players@.len() && i != player_num as int
                        ==> self.players@[i] == old(self).players@[i],
            ensures
                self.wf(),
                self.players@.len() == old(self).players@.len(),
                self.players@[player_num as int].hand@.len() <= 127,
                self.players@[player_num as int].stack@.len() <= old(
                    self,
                ).players@[player_num as int].stack@.len(),
                old(self).end ==> self.end,
                !self.end ==> self.winner == old(self).winner,
                old(self).decided() ==> self.decided(),
                !old(self).end && self.end ==> self.decided(),
                self.end || !(state && steps > 0),
                (exists|i: int|
                    0 <= i < old(self).players@.len() && (#[trigger] old(
                        self,
                    ).players@[i]).stack@.len() == 0) ==> self.end || (state && steps == fuel),
                forall|i: int|
                    0 <= i < old(self).players@.len() && i != player_num as int
                        ==> self.players@[i] == old(self).players@[i],
            decreases steps,
        {
            if self.check_win() {
                break;
            }
            state = self.play_move(player_num, player);

            if self.players[player_num as usize].hand.len() == 0 && state {
                self.refill_hand(player_num);
            }
            steps = steps - 1;
        }
    }
}

} // verus!
