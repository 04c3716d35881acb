//! The random numbers that mine placement draws, from the `rand` crate.
//!
//! Nothing here is proved: Verus takes the contracts below on trust.

use rand::rngs::ThreadRng;
use rand::Rng;
use vstd::prelude::*;

verus! {

/// `rand::rngs::ThreadRng`, a handle to the generator of the current thread.
/// Nothing is said of what it holds.
#[verifier::external_type_specification]
#[verifier::external_body]
pub struct ExThreadRng(rand::rngs::ThreadRng);

/// `rand::thread_rng`: hands out the generator of the current thread, which
/// the system seeds on first use. The call panics if the system cannot
/// supply the seed. Nothing is claimed of the handle.
#[verifier::external_body]
pub(crate) fn local_rng() -> ThreadRng {
    rand::thread_rng()
}

/// `rand::Rng::gen_range` on the half-open range `0..bound`: a number below
/// `bound`. The call panics on an empty range, so `bound` must not be 0.
/// It can also panic, whatever `bound` is, when the generator is due for new
/// seed material and the system cannot supply it. Which number comes is left
/// open; two calls may differ.
#[verifier::external_body]
pub(crate) fn draw_below(rng: &mut ThreadRng, bound: usize) -> (r: usize)
    requires
        bound > 0,
    ensures
        r < bound,
{
    rng.gen_range(0..bound)
}

} // verus!
