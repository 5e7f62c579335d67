//! A seedable pseudo-random source.
//!
//! Jittered pixel sampling and hemisphere-direction sampling draw from
//! an explicit generator owned by the caller, so a render is a pure
//! function of the scene, the camera and the seed: the same seed gives
//! a bit-identical image.

use vstd::prelude::*;

verus! {

use vstd::arithmetic::div_mod::{lemma_add_mod_noop, lemma_div_is_ordered, lemma_small_mod};

/// Multiplier of the linear congruential step.
pub const RNG_MUL: u64 = 6364136223846793005;

/// Increment of the linear congruential step.
pub const RNG_INC: u64 = 1442695040888963407;

/// The generator state after one linear congruential step.
pub open spec fn rng_next_s(s: u64) -> u64 {
    (((s as int) * (RNG_MUL as int) + (RNG_INC as int)) % 0x10000000000000000) as u64
}

/// The sixteen-bit draw a state yields: its top sixteen bits.
pub open spec fn rng_draw_s(s: u64) -> int {
    (s as int) / 0x1000000000000
}

/// A linear congruential pseudo-random generator.
#[derive(Clone, Copy, Debug)]
pub struct Rng {
    pub state: u64,
}

impl Rng {
    /// A generator starting from the given seed.
    pub fn new(seed: u64) -> (r: Rng)
        ensures
            r.state == seed,
    {
        Rng { state: seed }
    }

    /// Advance the state once and return a draw in `0 .. 65536`, the
    /// top sixteen bits of the new state.
    pub fn next16(&mut self) -> (r: u64)
        ensures
            final(self).state == rng_next_s(old(self).state),
            r == rng_draw_s(final(self).state),
            0 <= r < 65536,
    {
        let s0 = self.state;
        let s1 = s0.wrapping_mul(RNG_MUL);
        let s2 = s1.wrapping_add(RNG_INC);
        proof {
            let m = 0x10000000000000000int;
            let p = (s0 as int) * (RNG_MUL as int);
            lemma_small_mod(RNG_INC as nat, m as nat);
            lemma_add_mod_noop(p, RNG_INC as int, m);
            assert(s1 as int == p % m);
            assert(s2 as int == ((p % m) + (RNG_INC as int) % m) % m);
            assert(s2 == rng_next_s(s0));
        }
        self.state = s2;
        let r = self.state / 281474976710656;
        proof {
            lemma_div_is_ordered(self.state as int, 18446744073709551615int, 281474976710656int);
        }
        r
    }
}

} // verus!
