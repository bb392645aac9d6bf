//! The library's only randomness source: thin wrappers around `rand`.
//!
//! Each wrapper promises no more than the range of the draw, so everything
//! proved downstream holds for every possible sequence of random values.

use vstd::prelude::*;

verus! {

/// Relies on rand's `ThreadRng` type: declared opaquely so the
/// thread-local generator can appear in the library's signatures.
#[verifier::external_type_specification]
#[verifier::external_body]
pub struct ExThreadRng(rand::rngs::ThreadRng);

/// Relies on rand's `Rng::gen_range` over an inclusive integer range: the
/// result lies in the range; the call panics only when the range is empty.
#[verifier::external_body]
pub(crate) fn rand_fx(rng: &mut rand::rngs::ThreadRng, lo: i64, hi: i64) -> (r: i64)
    requires
        lo <= hi,
    ensures
        lo <= r <= hi,
{
    rand::Rng::gen_range(rng, lo..=hi)
}

/// Relies on rand's `Rng::gen_range` over a half-open index range: the
/// result is below the bound; the call panics only when the range is empty.
#[verifier::external_body]
pub(crate) fn rand_index(rng: &mut rand::rngs::ThreadRng, bound: usize) -> (r: usize)
    requires
        bound >= 1,
    ensures
        r < bound,
{
    rand::Rng::gen_range(rng, 0..bound)
}

} // verus!
