use vstd::prelude::*;

use rand_xoshiro::rand_core::{RngCore, SeedableRng};
use rand_xoshiro::Xoshiro128StarStar;

verus! {

#[verifier::external_type_specification]
#[verifier::external_body]
pub struct ExXoshiro128StarStar(Xoshiro128StarStar);

/// Relies on `SeedableRng::seed_from_u64` of rand_xoshiro's
/// `Xoshiro128StarStar`: a generator whose state is derived from `seed`.
#[verifier::external_body]
pub(crate) fn seeded_rng(seed: u64) -> (r: Xoshiro128StarStar) {
    Xoshiro128StarStar::seed_from_u64(seed)
}

/// Relies on `RngCore::next_u32` of rand_xoshiro's `Xoshiro128StarStar`: the
/// next 32 pseudorandom bits. Nothing is stated of the value.
#[verifier::external_body]
pub(crate) fn next_random(rng: &mut Xoshiro128StarStar) -> (r: u32) {
    rng.next_u32()
}

} // verus!
