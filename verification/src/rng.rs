//! Trusted boundary to the `rand` crate: the only randomness source.
//!
//! Everything else in the crate treats a drawn number as an arbitrary
//! value inside the stated range.

use vstd::prelude::*;

verus! {

/// `rand::rngs::ThreadRng` carried as an opaque value.
#[verifier::external_type_specification]
#[verifier::external_body]
pub struct ExThreadRng(rand::rngs::ThreadRng);

/// Relies on `rand::thread_rng`: hands back the thread-local generator.
/// Nothing is promised of it; every draw made through it is only bounded
/// by the range given at the draw. It aborts only when the operating
/// system's randomness source cannot be initialized at all.
#[verifier::external_body]
pub fn fresh_rng() -> rand::rngs::ThreadRng {
    rand::thread_rng()
}

/// Relies on `rand::Rng::gen_range` over `low..high`: returns a value of
/// the half-open range, and panics only when the range is empty, which
/// the precondition rules out.
#[verifier::external_body]
pub fn gen_range_i8(rng: &mut rand::rngs::ThreadRng, low: i8, high: i8) -> (r: i8)
    requires
        low < high,
    ensures
        low <= r < high,
{
    rand::Rng::gen_range(rng, low..high)
}

} // verus!
