//! Reproducible pseudo-random number generation: the xoroshiro128** generator,
//! deterministic from a 64-bit seed, with a 53-bit uniform draw used for all
//! probability comparisons.

use vstd::prelude::*;

verus! {

/// One unit of probability: rates and draws are numerators over this
/// denominator, so a rate of `PROB_ONE` is certainty.
pub const PROB_ONE: u64 = 0x20000000000000;

/// One step of the splitmix64 state update, used to expand a seed.
pub open spec fn splitmix_next(state: u64) -> u64 {
    vstd::wrapping::u64_specs::wrapping_add(state, 0x9E3779B97F4A7C15)
}

/// The splitmix64 output scrambler applied to a state value.
pub open spec fn splitmix_scramble(z0: u64) -> u64 {
    let z1 = vstd::wrapping::u64_specs::wrapping_mul(z0 ^ (z0 >> 30u64), 0xBF58476D1CE4E5B9);
    let z2 = vstd::wrapping::u64_specs::wrapping_mul(z1 ^ (z1 >> 27u64), 0x94D049BB133111EB);
    z2 ^ (z2 >> 31u64)
}

/// Left rotation of a 64-bit word by `k` bits, `0 < k < 64`.
pub open spec fn rotl64(x: u64, k: u64) -> u64 {
    (x << k) | (x >> ((64 - k) as u64))
}

/// The output of one xoroshiro128** step from state `(s0, s1)`.
pub open spec fn xoroshiro_output(s0: u64) -> u64 {
    vstd::wrapping::u64_specs::wrapping_mul(
        rotl64(vstd::wrapping::u64_specs::wrapping_mul(s0, 5), 7),
        9,
    )
}

/// The next state of one xoroshiro128** step from state `(s0, s1)`.
pub open spec fn xoroshiro_next_state(s0: u64, s1: u64) -> (u64, u64) {
    let t = s1 ^ s0;
    (rotl64(s0, 24) ^ t ^ (t << 16u64), rotl64(t, 37))
}

/// A xoroshiro128** pseudo-random generator. The sequence of outputs is a
/// function of the 64-bit seed alone, so trials are reproducible.
#[derive(Debug, Clone, Copy)]
pub struct Xoroshiro128StarStar {
    s0: u64,
    s1: u64,
}

impl Xoroshiro128StarStar {
    /// The generator state, for stating determinism.
    pub closed spec fn state(&self) -> (u64, u64) {
        (self.s0, self.s1)
    }

    /// Expand a 64-bit seed into the initial generator state with two rounds
    /// of splitmix64.
    pub fn from_seed(seed: u64) -> (r: Self)
        ensures
            r.state() == (
                splitmix_scramble(splitmix_next(seed)),
                splitmix_scramble(splitmix_next(splitmix_next(seed))),
            ),
    {
        let z0 = seed.wrapping_add(0x9E3779B97F4A7C15);
        let z1 = z0.wrapping_add(0x9E3779B97F4A7C15);
        Self { s0: Self::scramble(z0), s1: Self::scramble(z1) }
    }

    /// Create a generator from a freshly drawn operating-system seed, so that
    /// clones of a simulator diverge.
    pub fn new() -> Self {
        Self::from_seed(fresh_seed())
    }

    fn scramble(z0: u64) -> (r: u64)
        ensures
            r == splitmix_scramble(z0),
    {
        let z1 = (z0 ^ (z0 >> 30)).wrapping_mul(0xBF58476D1CE4E5B9);
        let z2 = (z1 ^ (z1 >> 27)).wrapping_mul(0x94D049BB133111EB);
        z2 ^ (z2 >> 31)
    }

    /// Produce the next 64-bit output and advance the state. The output and
    /// the new state are functions of the old state alone.
    pub fn next_u64(&mut self) -> (r: u64)
        ensures
            r == xoroshiro_output(old(self).state().0),
            final(self).state() == xoroshiro_next_state(
                old(self).state().0,
                old(self).state().1,
            ),
    {
        let s0 = self.s0;
        let s1 = self.s1;
        let result = ((s0.wrapping_mul(5) << 7) | (s0.wrapping_mul(5) >> 57)).wrapping_mul(9);
        let t = s1 ^ s0;
        self.s0 = ((s0 << 24) | (s0 >> 40)) ^ t ^ (t << 16);
        self.s1 = (t << 37) | (t >> 27);
        result
    }

    /// Draw a uniform value in `[0, PROB_ONE)`: the top 53 bits of the next
    /// output.
    pub fn next_unit(&mut self) -> (r: u64)
        ensures
            r < PROB_ONE,
            r == xoroshiro_output(old(self).state().0) >> 11u64,
            final(self).state() == xoroshiro_next_state(
                old(self).state().0,
                old(self).state().1,
            ),
    {
        let x = self.next_u64();
        let r = x >> 11;
        proof {
            assert(x >> 11u64 < 0x20000000000000) by (bit_vector);
        }
        r
    }
}

/// The generator state after `k` outputs have been drawn from state `st`.
pub open spec fn rng_skip(st: (u64, u64), k: nat) -> (u64, u64)
    decreases k,
{
    if k == 0 {
        st
    } else {
        let prev = rng_skip(st, (k - 1) as nat);
        xoroshiro_next_state(prev.0, prev.1)
    }
}

/// Drawing from an advanced state advances further: iteration composes.
pub proof fn lemma_rng_skip_add(st: (u64, u64), a: nat, b: nat)
    ensures
        rng_skip(rng_skip(st, a), b) == rng_skip(st, a + b),
    decreases b,
{
    if b > 0 {
        lemma_rng_skip_add(st, a, (b - 1) as nat);
    }
}

/// Relies on rand::random to draw a seed from the operating system's
/// entropy; nothing is assumed of the value.
#[verifier::external_body]
fn fresh_seed() -> u64 {
    rand::random::<u64>()
}

} // verus!
