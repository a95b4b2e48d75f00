//! Card values and the cyclic distance between them.
//!
//! A card is an integer in `1..=12`, or the wildcard `JOKER`, encoded as
//! the sentinel `-1`.

use vstd::prelude::*;

verus! {

/// The wildcard card value: it matches whatever value a field stack
/// currently needs next.
pub const JOKER: i8 = -1;

/// A well-formed card: a concrete value in `1..=12`, or the Joker.
pub open spec fn is_card(c: i8) -> bool {
    c == JOKER || (1 <= c && c <= 12)
}

/// Every card of the sequence is well formed.
pub open spec fn valid_cards(s: Seq<i8>) -> bool {
    forall|i: int| 0 <= i < s.len() ==> is_card(#[trigger] s[i])
}

/// A well-formed field-stack top value. `12` doubles as "empty: the next
/// legal card is `1`".
pub open spec fn valid_top(t: i8) -> bool {
    1 <= t && t <= 12
}

/// Card `c` may be placed on a field stack whose state is
/// `(top, joker_active)`: it is the successor of the top, or a `1` on an
/// empty stack, or a Joker while no Joker is already active there.
pub open spec fn can_place(c: i8, top: i8, joker_active: bool) -> bool {
    c == top + 1 || (top == 12 && c == 1) || (c == JOKER && !joker_active)
}

/// The `(top_value, joker_active)` state of a field stack after card `c`
/// is placed on it while its top value is `top`: a Joker substitutes for
/// the next expected value and raises the active flag; a concrete card
/// becomes the new top and clears it.
pub open spec fn field_after(c: i8, top: i8) -> (i8, bool) {
    if c == JOKER {
        if top == 12 {
            (1i8, true)
        } else {
            ((top + 1) as i8, true)
        }
    } else {
        (c, false)
    }
}

/// Field update correctness: a concrete card always becomes the new
/// top with the Joker flag cleared, whatever the prior state; a Joker
/// substitutes for the next expected value — `1` on an empty stack,
/// the successor otherwise — and raises the flag.
pub proof fn lemma_field_after_cases(c: i8, top: i8)
    requires
        is_card(c),
        valid_top(top),
    ensures
        c != JOKER ==> field_after(c, top) == (c, false),
        c == JOKER && top == 12 ==> field_after(c, top) == (1i8, true),
        c == JOKER && top < 12 ==> field_after(c, top) == (((top + 1) as i8), true),
{
}

/// Steps needed to walk forward from `c1` to `c2` on the ring `1..=12`.
/// Directional: not the shorter-path distance.
pub open spec fn spec_distance(c1: i8, c2: i8) -> int {
    if c2 < c1 {
        12 - c1 + c2
    } else {
        c2 - c1
    }
}

/// The amount of cards needed to go from one card to another, walking
/// forward on the ring `1..=12`.
pub fn distance_between_cards(c1: i8, c2: i8) -> (r: i8)
    requires
        is_card(c1),
        is_card(c2),
    ensures
        r as int == spec_distance(c1, c2),
{
    if c2 < c1 {
        12 - c1 + c2
    } else {
        c2 - c1
    }
}

} // verus!
