//! SplitMix64: a small, fast, seedable pseudo-random generator used for
//! scrambles and practice states. Deterministic for a given seed.

use vstd::prelude::*;

verus! {

/// Increment added to the state before each output.
pub const GOLDEN_GAMMA: u64 = 0x9E37_79B9_7F4A_7C15;

/// The output finalizer applied to the advanced state.
pub open spec fn mix64(z: u64) -> u64 {
    let a = (z ^ (z >> 30u64)).wrapping_mul(0xBF58_476D_1CE4_E5B9u64);
    let b = (a ^ (a >> 27u64)).wrapping_mul(0x94D0_49BB_1331_11EBu64);
    b ^ (b >> 31u64)
}

/// Pseudo-random generator state.
#[derive(Clone, Copy, PartialEq, Eq, Structural, Debug)]
pub struct SplitMix64 {
    pub state: u64,
}

impl SplitMix64 {
    pub fn new(seed: u64) -> (r: SplitMix64)
        ensures
            r.state == seed,
    {
        SplitMix64 { state: seed }
    }

    /// Next 64-bit output.
    pub fn next_u64(&mut self) -> (r: u64)
        ensures
            final(self).state == old(self).state.wrapping_add(GOLDEN_GAMMA),
            r == mix64(final(self).state),
    {
        self.state = self.state.wrapping_add(GOLDEN_GAMMA);
        let z = self.state;
        let a = (z ^ (z >> 30u64)).wrapping_mul(0xBF58_476D_1CE4_E5B9u64);
        let b = (a ^ (a >> 27u64)).wrapping_mul(0x94D0_49BB_1331_11EBu64);
        b ^ (b >> 31u64)
    }

    /// A value in `0..n`: the next output reduced modulo `n`.
    pub fn below(&mut self, n: u32) -> (r: u32)
        requires
            n > 0,
        ensures
            final(self).state == old(self).state.wrapping_add(GOLDEN_GAMMA),
            r as int == mix64(final(self).state) as int % n as int,
            r < n,
    {
        let x = self.next_u64();
        (x % (n as u64)) as u32
    }
}

} // verus!
