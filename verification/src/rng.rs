//! Random draws that the scene builders make.

use vstd::prelude::*;
use rand::Rng;
use rand::rngs::ThreadRng;
use crate::math::Axis;

verus! {

/// The thread-local generator of the `rand` crate. Nothing is known of its
/// state.
#[verifier::external_type_specification]
#[verifier::external_body]
pub struct ExThreadRng(ThreadRng);

/// `Rng::random_range` on the inclusive range `0..=2` of `u8`. The crate
/// documents the result as a value of the given range; nothing else is
/// claimed of it.
#[verifier::external_body]
fn random_axis_index(rng: &mut ThreadRng) -> (n: u8)
    ensures
        n <= 2,
{
    rng.random_range(0u8..=2u8)
}

/// `Rng::random_range` on the half-open range `0..bound` of `usize`. The
/// crate panics on an empty range, so `bound` must be positive; the result is
/// documented as a value of the range.
#[verifier::external_body]
pub(crate) fn random_below(rng: &mut ThreadRng, bound: usize) -> (n: usize)
    requires
        bound > 0,
    ensures
        n < bound,
{
    rng.random_range(0..bound)
}

/// Draws one of the three axes.
pub(crate) fn random_axis(rng: &mut ThreadRng) -> (axis: Axis)
{
    Axis::from_index(random_axis_index(rng))
}

} // verus!
