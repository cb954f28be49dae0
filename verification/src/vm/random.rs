//! The generator behind `rand()`.

use vstd::prelude::*;

verus! {

/// The generator `tiny_rng::Rng`. Its state is hidden, and nothing is assumed of it.
#[verifier::external_type_specification]
#[verifier::external_body]
pub struct ExRng(tiny_rng::Rng);

/// Calls `Rand::from_seed` of `tiny_rng::Rng`, which makes a generator from a seed.
/// Nothing is assumed of the generator.
#[verifier::external_body]
pub(crate) fn seeded(seed: u64) -> tiny_rng::Rng {
    tiny_rng::Rand::from_seed(seed)
}

/// Calls `Rand::rand_u32` of `tiny_rng::Rng`, which gives the next sample. The sample may
/// be any 32-bit value, so nothing is assumed of it.
#[verifier::external_body]
pub(crate) fn draw(rng: &mut tiny_rng::Rng) -> u32 {
    tiny_rng::Rand::rand_u32(rng)
}

} // verus!
