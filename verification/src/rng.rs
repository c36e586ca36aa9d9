//! A deterministic pseudo-random generator with 256 bits of state.
//!
//! The step rule is the xoshiro256+ rule of Blackman and Vigna: the raw
//! output of a step is the wrapping sum of the first and last state words,
//! and the state update is a fixed network of xors, one shift and one
//! rotation.  Every draw below is a pure function of the generator state, so
//! any computation fed from a generator value is reproducible bit for bit.

use vstd::prelude::*;

verus! {

/// First 32 bytes of the stream of a split-mix generator seeded with zero,
/// read as four little-endian words; used in place of an all-zero seed,
/// which would be a fixed point of the step rule.
pub const SEED_FALLBACK_0: u64 = 0xe220a8397b1dcdaf;
/// Second word of the all-zero-seed fallback state.
pub const SEED_FALLBACK_1: u64 = 0x6e789e6aa1b965f4;
/// Third word of the all-zero-seed fallback state.
pub const SEED_FALLBACK_2: u64 = 0x06c45d188009454f;
/// Fourth word of the all-zero-seed fallback state.
pub const SEED_FALLBACK_3: u64 = 0xf88bb8a8724c81ec;

/// Generator state: four 64-bit words.
#[derive(Clone, Copy, PartialEq, Eq, Structural, Debug)]
pub struct Rng {
    pub s0: u64,
    pub s1: u64,
    pub s2: u64,
    pub s3: u64,
}

/// Left rotation of a 64-bit word by 45 bits.
pub open spec fn spec_rotl45(x: u64) -> u64 {
    (x << 45u64) | (x >> 19u64)
}

impl Rng {
    /// The raw output of one step: the wrapping sum of the outer state words.
    pub open spec fn spec_output(self) -> u64 {
        self.s0.wrapping_add(self.s3)
    }

    /// The state after one step.
    pub open spec fn spec_step(self) -> Rng {
        let t = self.s1 << 17u64;
        let s2a = self.s2 ^ self.s0;
        let s3a = self.s3 ^ self.s1;
        let s1a = self.s1 ^ s2a;
        let s0a = self.s0 ^ s3a;
        let s2b = s2a ^ t;
        let s3b = spec_rotl45(s3a);
        Rng { s0: s0a, s1: s1a, s2: s2b, s3: s3b }
    }

    /// State and output of one step, as a pair.
    pub open spec fn spec_next(self) -> (Rng, u64) {
        (self.spec_step(), self.spec_output())
    }

    /// A generator built from four seed words, with the all-zero seed mapped
    /// to the fallback state.
    pub open spec fn spec_from_seed(w0: u64, w1: u64, w2: u64, w3: u64) -> Rng {
        if w0 == 0 && w1 == 0 && w2 == 0 && w3 == 0 {
            Rng {
                s0: SEED_FALLBACK_0,
                s1: SEED_FALLBACK_1,
                s2: SEED_FALLBACK_2,
                s3: SEED_FALLBACK_3,
            }
        } else {
            Rng { s0: w0, s1: w1, s2: w2, s3: w3 }
        }
    }

    /// A sub-generator forked from `self`: seeded with four draws from
    /// `self`, so forking is itself a deterministic, seed-derived operation.
    pub open spec fn spec_fork(self) -> (Rng, Rng) {
        let (r1, w0) = self.spec_next();
        let (r2, w1) = r1.spec_next();
        let (r3, w2) = r2.spec_next();
        let (r4, w3) = r3.spec_next();
        (r4, Rng::spec_from_seed(w0, w1, w2, w3))
    }

    /// State and value of a draw below `n`.
    pub open spec fn spec_next_below(self, n: u64) -> (Rng, u64) {
        (self.spec_step(), self.spec_output() % n)
    }

    /// Build a generator from four seed words.
    pub fn from_seed(w0: u64, w1: u64, w2: u64, w3: u64) -> (r: Rng)
        ensures
            r == Rng::spec_from_seed(w0, w1, w2, w3),
    {
        if w0 == 0 && w1 == 0 && w2 == 0 && w3 == 0 {
            Rng {
                s0: SEED_FALLBACK_0,
                s1: SEED_FALLBACK_1,
                s2: SEED_FALLBACK_2,
                s3: SEED_FALLBACK_3,
            }
        } else {
            Rng { s0: w0, s1: w1, s2: w2, s3: w3 }
        }
    }

    /// Advance the generator one step and return the raw 64-bit output.
    pub fn next_u64(&mut self) -> (x: u64)
        ensures
            *final(self) == old(self).spec_step(),
            x == old(self).spec_output(),
    {
        let out = self.s0.wrapping_add(self.s3);
        let t = self.s1 << 17u64;
        self.s2 = self.s2 ^ self.s0;
        self.s3 = self.s3 ^ self.s1;
        self.s1 = self.s1 ^ self.s2;
        self.s0 = self.s0 ^ self.s3;
        self.s2 = self.s2 ^ t;
        self.s3 = (self.s3 << 45u64) | (self.s3 >> 19u64);
        out
    }

    /// Draw a value uniformly-by-reduction below `n`.
    pub fn next_below(&mut self, n: u64) -> (x: u64)
        requires
            n >= 1,
        ensures
            (*final(self), x) == old(self).spec_next_below(n),
            x < n,
    {
        let raw = self.next_u64();
        raw % n
    }

    /// Fork a sub-generator off this one.  The fork consumes four draws, so
    /// computations fed from the fork are isolated from later draws on
    /// `self`.
    pub fn fork(&mut self) -> (r: Rng)
        ensures
            (*final(self), r) == old(self).spec_fork(),
    {
        let w0 = self.next_u64();
        let w1 = self.next_u64();
        let w2 = self.next_u64();
        let w3 = self.next_u64();
        Rng::from_seed(w0, w1, w2, w3)
    }
}

} // verus!
