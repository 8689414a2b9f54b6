//! The random source. The library draws through one bounded-draw
//! wrapper; the generator's reproducibility for a fixed seed is the
//! source's own guarantee.

use vstd::prelude::*;
use rand::Rng;

verus! {

#[verifier::external_type_specification]
#[verifier::external_body]
pub struct ExSmallRng(rand::rngs::SmallRng);

/// Relies on rand's `Rng::gen_range` over `0..=max`: the range is never
/// empty, so the call does not panic, and the draw lies within it.
#[verifier::external_body]
pub(crate) fn gen_bounded(rng: &mut rand::rngs::SmallRng, max: usize) -> (r: usize)
    ensures
        r <= max,
{
    rng.gen_range(0..=max)
}

} // verus!
