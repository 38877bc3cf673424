//! A permuted-congruential random number generator.
//!
//! The generator is a pure function of its state: equal seeds give equal
//! streams, which makes rendering with noise reproducible.

use vstd::prelude::*;

verus! {

/// The multiplier of the linear congruential step.
pub open spec fn pcg_multiplier() -> u64 {
    6364136223846793005u64
}

/// The state that follows the given state.
pub open spec fn pcg_next_state(state: u64, inc: u64) -> u64 {
    state.wrapping_mul(pcg_multiplier()).wrapping_add(inc)
}

/// The output word of the given state: an xorshift followed by a random
/// rotation taken from the top bits.
pub open spec fn pcg_output(state: u64) -> u32 {
    let x = (((state >> 18u64) ^ state) >> 27u64) as u32;
    let r = (state >> 59u64) as u32;
    if r == 0 {
        x
    } else {
        (x >> r) | (x << (32 - r))
    }
}

/// State for a random number generator.
#[derive(Clone)]
pub struct Rand {
    pub state: u64,
    pub inc: u64,
}

impl Rand {
    /// Create a random number generator with the default seed.
    pub fn with_default_seed() -> (r: Self)
        ensures
            r.state == 0x853c49e6748fea9bu64,
            r.inc == 0xda3e39cb94b95bdbu64,
    {
        Rand { state: 0x853c49e6748fea9b, inc: 0xda3e39cb94b95bdb }
    }

    /// Create a random number generator with the given seed.
    pub fn with_seed(seed: u64, seq: u64) -> (r: Self)
        ensures
            r.inc == (seq << 1u64) | 1u64,
            r.state == pcg_next_state(
                pcg_next_state(0, (seq << 1u64) | 1u64).wrapping_add(seed),
                (seq << 1u64) | 1u64,
            ),
    {
        let mut r = Rand { state: 0, inc: (seq << 1) | 1 };
        r.next();
        r.state = r.state.wrapping_add(seed);
        r.next();
        r
    }

    /// Return the next number in the sequence: the output of the current
    /// state, advancing the state by one congruential step.
    pub fn next(&mut self) -> (r: u32)
        ensures
            r == pcg_output(old(self).state),
            final(self).state == pcg_next_state(old(self).state, old(self).inc),
            final(self).inc == old(self).inc,
    {
        let state = self.state;
        self.state = state.wrapping_mul(6364136223846793005).wrapping_add(self.inc);
        let x = (((state >> 18) ^ state) >> 27) as u32;
        let rot = (state >> 59) as u32;
        proof {
            assert(state >> 59u64 < 32u64) by (bit_vector);
        }
        if rot == 0 {
            x
        } else {
            (x >> rot) | (x << (32 - rot))
        }
    }
}

} // verus!
