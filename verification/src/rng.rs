//! Fast deterministic PRNG (SplitMix64). Same seed gives the same sequence; not for
//! cryptographic use.

use vstd::prelude::*;

verus! {

pub const SPLITMIX64_GOLDEN: u64 = 0x9e3779b97f4a7c15;
pub const SPLITMIX64_M1: u64 = 0xbf58476d1ce4e5b9;
pub const SPLITMIX64_M2: u64 = 0x94d049bb133111eb;

/// The state that a call of `next_u64` moves to from `state`.
pub open spec fn splitmix_advance(state: u64) -> u64 {
    state.wrapping_add(SPLITMIX64_GOLDEN)
}

/// The SplitMix64 finalizer applied to an advanced state.
pub open spec fn splitmix_mix(z: u64) -> u64 {
    let z1 = (z ^ (z >> 30u64)).wrapping_mul(SPLITMIX64_M1);
    let z2 = (z1 ^ (z1 >> 27u64)).wrapping_mul(SPLITMIX64_M2);
    z2 ^ (z2 >> 31u64)
}

/// The state after `n` draws from `seed`.
pub open spec fn splitmix_state_after(seed: u64, n: nat) -> u64
    decreases n,
{
    if n == 0 {
        seed
    } else {
        splitmix_advance(splitmix_state_after(seed, (n - 1) as nat))
    }
}

/// The `n`-th value (0-based) drawn from a generator seeded with `seed`.
pub open spec fn splitmix_output(seed: u64, n: nat) -> u64 {
    splitmix_mix(splitmix_state_after(seed, n + 1))
}

#[derive(Debug, Clone, Copy)]
pub struct Rng {
    state: u64,
}

impl Rng {
    /// The generator's internal state.
    pub closed spec fn state(&self) -> u64 {
        self.state
    }

    pub fn new(seed: u64) -> (r: Self)
        ensures
            r.state() == seed,
    {
        Self { state: seed }
    }

    /// Returns the next 64-bit value.
    pub fn next_u64(&mut self) -> (v: u64)
        ensures
            final(self).state() == splitmix_advance(old(self).state()),
            v == splitmix_mix(final(self).state()),
    {
        self.state = self.state.wrapping_add(SPLITMIX64_GOLDEN);
        let mut z = self.state;
        z = (z ^ (z >> 30)).wrapping_mul(SPLITMIX64_M1);
        z = (z ^ (z >> 27)).wrapping_mul(SPLITMIX64_M2);
        z ^ (z >> 31)
    }
}

/// Determinism: two generators built from one seed give the same value at every draw, namely
/// `splitmix_output(seed, n)`; a generator's draws depend on nothing but its seed.
pub proof fn lemma_same_seed_same_sequence(seed: u64, n: nat)
    ensures
        splitmix_output(seed, n) == splitmix_mix(splitmix_state_after(seed, n + 1)),
        splitmix_state_after(seed, n + 1) == splitmix_advance(splitmix_state_after(seed, n)),
{
}

} // verus!
