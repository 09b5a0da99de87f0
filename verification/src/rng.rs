//! The engine's only source of randomness: a seeded generator from the
//! `rand` crate, behind trusted wrappers.

use vstd::prelude::*;

use rand::RngExt;
use rand::SeedableRng;

verus! {

/// Declares rand::rngs::StdRng so that the generator can live in a field
/// and be passed to the wrappers below; its insides stay opaque.
#[verifier::external_type_specification]
#[verifier::external_body]
pub struct ExStdRng(rand::rngs::StdRng);

/// Relies on rand::SeedableRng::seed_from_u64 for rand::rngs::StdRng: builds
/// a generator from the given seed; it does not fail.
#[verifier::external_body]
pub fn seeded_rng(seed: u64) -> rand::rngs::StdRng {
    rand::rngs::StdRng::seed_from_u64(seed)
}

/// Relies on rand::RngExt::random_range over the half-open range `0..n`: the
/// result lies in that range; the call panics only on an empty range, which
/// `n >= 1` rules out. Nothing is assumed about which value comes back.
#[verifier::external_body]
pub fn rand_below(rng: &mut rand::rngs::StdRng, n: u32) -> (r: u32)
    requires
        n >= 1,
    ensures
        r < n,
{
    rng.random_range(0..n)
}

} // verus!
