use vstd::prelude::*;
use rand::rngs::SmallRng;
use rand::{Rng, RngCore, SeedableRng};

verus! {

#[verifier::external_type_specification]
#[verifier::external_body]
pub struct ExSmallRng(rand::rngs::SmallRng);

/// Relies on rand's `SeedableRng::seed_from_u64` for `SmallRng`: a generator
/// built from a seed. Nothing is claimed of the numbers it will draw.
#[verifier::external_body]
pub(crate) fn rng_from_seed(seed: u64) -> (r: SmallRng) {
    SmallRng::seed_from_u64(seed)
}

/// Relies on rand's `Rng::gen_range`: a value in `[0, bound)`, which panics
/// only on an empty range.
#[verifier::external_body]
pub(crate) fn gen_index(rng: &mut SmallRng, bound: usize) -> (r: usize)
    requires
        bound > 0,
    ensures
        r < bound,
{
    rng.gen_range(0, bound)
}

/// Relies on rand's `RngCore::next_u32` for `SmallRng`: the next 32 random bits.
#[verifier::external_body]
pub(crate) fn gen_u32(rng: &mut SmallRng) -> (r: u32) {
    rng.next_u32()
}

/// The simulation's pseudo-random generator, passed explicitly to whatever
/// draws from it so that a run is reproducible from its seed.
pub struct SimRng {
    rng: SmallRng,
}

impl SimRng {
    pub fn from_seed(seed: u64) -> (r: Self) {
        SimRng { rng: rng_from_seed(seed) }
    }

    /// Draws an index uniformly in `[0, bound)`.
    pub fn index(&mut self, bound: usize) -> (r: usize)
        requires
            bound > 0,
        ensures
            r < bound,
    {
        gen_index(&mut self.rng, bound)
    }

    /// Draws 32 random bits, for callers that build other distributions.
    pub fn next_u32(&mut self) -> (r: u32) {
        gen_u32(&mut self.rng)
    }
}

} // verus!
