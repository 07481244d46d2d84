use vstd::prelude::*;

verus! {

/// Added to the state on every draw.
pub const GAMMA: u64 = 0x9E37_79B9_7F4A_7C15;

/// A small seedable generator (SplitMix64). Its draws have no cryptographic
/// quality; they are reproducible from the seed, which is what tests need.
#[derive(Debug, Clone, Copy, PartialEq, Eq, Structural)]
pub struct SplitMix64 {
    pub state: u64,
}

/// The output function applied to each new state.
pub open spec fn mix(z: u64) -> u64 {
    let z1 = (z ^ (z >> 30u64)).wrapping_mul(0xBF58_476D_1CE4_E5B9u64);
    let z2 = (z1 ^ (z1 >> 27u64)).wrapping_mul(0x94D0_49BB_1331_11EBu64);
    z2 ^ (z2 >> 31u64)
}

/// The state after `n` draws from `seed`.
pub open spec fn state_after(seed: u64, n: nat) -> u64
    decreases n,
{
    if n == 0 {
        seed
    } else {
        state_after(seed, (n - 1) as nat).wrapping_add(GAMMA)
    }
}

/// The draw numbered `n` (from 0) of a generator whose state was `seed`.
pub open spec fn nth_draw(seed: u64, n: nat) -> u64 {
    mix(state_after(seed, n + 1))
}

/// Drawing once more from a state reached after `n` draws.
pub proof fn lemma_next_draw(seed: u64, n: nat)
    ensures
        state_after(state_after(seed, n), 1) == state_after(seed, n + 1),
        nth_draw(state_after(seed, n), 0) == nth_draw(seed, n),
{
    reveal_with_fuel(state_after, 2);
}

impl SplitMix64 {
    /// A generator whose state is `seed`.
    pub fn new(seed: u64) -> (r: SplitMix64)
        ensures
            r.state == seed,
    {
        SplitMix64 { state: seed }
    }

    /// Advances the state by `GAMMA` and returns the mixed new state.
    pub fn next_u64(&mut self) -> (r: u64)
        ensures
            final(self).state == state_after(old(self).state, 1),
            r == nth_draw(old(self).state, 0),
    {
        proof {
            reveal_with_fuel(state_after, 2);
        }
        self.state = self.state.wrapping_add(GAMMA);
        let z = self.state;
        let z = (z ^ (z >> 30u64)).wrapping_mul(0xBF58_476D_1CE4_E5B9u64);
        let z = (z ^ (z >> 27u64)).wrapping_mul(0x94D0_49BB_1331_11EBu64);
        z ^ (z >> 31u64)
    }
}

} // verus!
