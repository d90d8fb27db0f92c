//! Random draws, taken from the `rand` crate behind trusted wrappers.
//!
//! A generator is threaded explicitly through every function that needs
//! randomness, so callers can seed it deterministically. Nothing is
//! assumed of a draw beyond its range: the logic downstream is verified
//! for every value the wrappers may hand back.

use vstd::prelude::*;
use rand::Rng;
use crate::fx::SCALE;

verus! {

#[verifier::external_type_specification]
#[verifier::external_body]
pub struct ExSmallRng(rand::rngs::SmallRng);

/// Relies on rand's `Rng::gen_range` over `0..SCALE`: a draw in
/// `[0, SCALE)`, i.e. a fixed-point value in `[0, 1)`.
#[verifier::external_body]
pub(crate) fn rand_unit(rng: &mut rand::rngs::SmallRng) -> (r: i64)
    ensures
        0 <= r < SCALE,
{
    rng.gen_range(0i64..(SCALE as i64))
}

/// Relies on rand's `Rng::gen_range` over `0..3`: picks one of the three
/// coordinate axes.
#[verifier::external_body]
pub(crate) fn rand_axis(rng: &mut rand::rngs::SmallRng) -> (r: usize)
    ensures
        r < 3,
{
    rng.gen_range(0usize..3usize)
}

} // verus!
