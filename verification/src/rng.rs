//! The pseudo-random generator that drives every randomized choice of the engine.
//!
//! The generator is `libafl_bolts`' standard one. Its internal state is opaque to the
//! proofs: a draw is only known to respect its bound, and every function that consumes
//! draws is verified for all values a draw can take.

use libafl_bolts::rands::Rand;
use libafl_bolts::rands::StdRand;
use vstd::prelude::*;

verus! {

/// `libafl_bolts::rands::RomuDuoJrRand`, the generator behind `StdRand`.
#[verifier::external_type_specification]
#[verifier::external_body]
pub struct ExStdRand(libafl_bolts::rands::RomuDuoJrRand);

/// Calls `StdRand::with_seed`. Nothing is claimed of the generator that comes back.
#[verifier::external_body]
pub(crate) fn rng_with_seed(seed: u64) -> StdRand {
    StdRand::with_seed(seed)
}

/// Calls `Rand::below`, which scales the next 64-bit output into `0..bound`.
/// The multiplication-and-shift it uses yields a value strictly under a non-zero
/// bound; a zero bound trips a debug assertion there, so it is left out.
#[verifier::external_body]
pub(crate) fn rng_below(rng: &mut StdRand, bound: usize) -> (r: usize)
    requires
        bound > 0,
    ensures
        r < bound,
{
    rng.below(bound)
}

/// Copies the generator, so that a saved state resumes the same stream.
/// `RomuDuoJrRand` is `Copy` and its derived `Clone` copies both words of its state:
/// the copy is the same generator.
#[verifier::external_body]
pub(crate) fn rng_fork(rng: &StdRand) -> (copy: StdRand)
    ensures
        copy == *rng,
{
    rng.clone()
}

} // verus!
