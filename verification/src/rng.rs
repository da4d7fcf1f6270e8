//! Trusted declarations for the pseudo-random number generator.
//!
//! Every random draw in the library flows through `oorandom::Rand32`. Its
//! state is opaque here, so nothing is assumed about the values drawn: every
//! caller is verified for every possible outcome of a draw.
use vstd::prelude::*;

verus! {

/// Relies on oorandom::Rand32, a small PCG-family generator. The struct is
/// opaque: the library never reads its state.
#[verifier::external_type_specification]
#[verifier::external_body]
pub struct ExRand32(oorandom::Rand32);

/// Relies on oorandom::Rand32::new: seeding a generator from a `u64` never
/// fails and never panics.
pub assume_specification[ oorandom::Rand32::new ](seed: u64) -> oorandom::Rand32;

/// Relies on oorandom::Rand32::rand_u32: it advances the generator's state
/// with wrapping arithmetic (no panic) and returns a `u32`; any value in
/// `[0, u32::MAX]` may come back.
pub assume_specification[ oorandom::Rand32::rand_u32 ](rng: &mut oorandom::Rand32) -> u32;

} // verus!
