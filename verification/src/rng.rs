//! The trusted boundary to the random number generator (rand's `StdRng`):
//! a seeded generator and one primitive, a draw below a bound. Nothing is
//! assumed of which value comes back, only that it is in range, so all logic
//! above is verified for every outcome.

use vstd::prelude::*;
use rand::Rng;
use rand::SeedableRng;

verus! {

#[verifier::external_type_specification]
#[verifier::external_body]
pub struct ExStdRng(rand::rngs::StdRng);

/// Relies on `rand::rngs::StdRng::seed_from_u64`: a generator deterministic
/// in the seed.
#[verifier::external_body]
pub fn rng_from_seed(seed: u64) -> (r: rand::rngs::StdRng) {
    rand::rngs::StdRng::seed_from_u64(seed)
}

/// Relies on `rand::Rng::gen_range`: a value drawn from `[0, n)`.
#[verifier::external_body]
pub fn rng_below(rng: &mut rand::rngs::StdRng, n: u64) -> (r: u64)
    requires
        n > 0,
    ensures
        r < n,
{
    rng.gen_range(0..n)
}

} // verus!
