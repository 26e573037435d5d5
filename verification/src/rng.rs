//! The replayable pseudo-random generator that drives challenge obfuscation:
//! a 64-bit linear congruential generator whose outputs are the high 32 bits
//! of each new state.
use vstd::prelude::*;

verus! {

pub open spec fn rng_seed_state(seed: i64) -> u64 {
    (seed as u64) ^ 0x9E37_79B9_7F4A_7C15u64
}

/// The state that follows `state`.
pub open spec fn rng_advance(state: u64) -> u64 {
    state.wrapping_mul(6364136223846793005u64).wrapping_add(1u64)
}

/// The output produced when stepping from `state`.
pub open spec fn rng_output(state: u64) -> u32 {
    (rng_advance(state) >> 32u64) as u32
}

/// The outcome of `next_bool(divisor)` from `state`, and the state after it:
/// a divisor of at most one yields `true` without stepping.
pub open spec fn rng_flip(state: u64, divisor: u32) -> (bool, u64) {
    if divisor <= 1 {
        (true, state)
    } else {
        (rng_output(state) % divisor == 0, rng_advance(state))
    }
}

#[derive(Clone, Debug)]
pub struct DeterministicRng {
    pub state: u64,
}

impl DeterministicRng {
    pub fn new(seed: i64) -> (rng: Self)
        ensures
            rng.state == rng_seed_state(seed),
    {
        Self { state: (seed as u64) ^ 0x9E37_79B9_7F4A_7C15u64 }
    }

    pub fn next_u32(&mut self) -> (out: u32)
        ensures
            out == rng_output(old(self).state),
            final(self).state == rng_advance(old(self).state),
    {
        self.state = self.state.wrapping_mul(6364136223846793005u64).wrapping_add(1u64);
        (self.state >> 32u64) as u32
    }

    pub fn next_bool(&mut self, divisor: u32) -> (out: bool)
        ensures
            (out, final(self).state) == rng_flip(old(self).state, divisor),
    {
        if divisor <= 1 {
            return true;
        }
        self.next_u32().is_multiple_of(divisor)
    }
}

} // verus!
