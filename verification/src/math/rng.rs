//! Deterministic pseudo-random number generator.
//!
//! Seeded from simulation state and advanced inside the simulation, so every
//! machine draws the same sequence.

use crate::math::fx::Fx;
use vstd::prelude::*;

verus! {

/// The multiplier of the xorshift64* output function.
pub const XORSHIFT_STAR_MULTIPLIER: u64 = 0x2545_F491_4F6C_DD1D;

/// One xorshift64 step (shifts 12, 25, 27) of the generator state.
pub open spec fn xorshift_step(x: u64) -> u64 {
    let a = x ^ (x >> 12u64);
    let b = a ^ (a << 25u64);
    b ^ (b >> 27u64)
}

/// The 32-bit output drawn from a freshly stepped state: the high half of the
/// wrapping product with the xorshift64* multiplier.
pub open spec fn xorshift_output(x: u64) -> u32 {
    (vstd::wrapping::u64_specs::wrapping_mul(x, XORSHIFT_STAR_MULTIPLIER) >> 32u64) as u32
}

/// A xorshift step never reaches the all-zero state from a non-zero one.
pub proof fn lemma_xorshift_step_nonzero(x: u64)
    requires
        x != 0,
    ensures
        xorshift_step(x) != 0,
{
    let a = x ^ (x >> 12u64);
    assert(a != 0) by (bit_vector)
        requires
            x != 0,
            a == x ^ (x >> 12u64),
    ;
    let b = a ^ (a << 25u64);
    assert(b != 0) by (bit_vector)
        requires
            a != 0,
            b == a ^ (a << 25u64),
    ;
    let c = b ^ (b >> 27u64);
    assert(c != 0) by (bit_vector)
        requires
            b != 0,
            c == b ^ (b >> 27u64),
    ;
}

/// A generator is determined by its state: equal states mean equal
/// generators.
pub proof fn lemma_state_determines_generator(a: Rng, b: Rng)
    requires
        a.state() == b.state(),
    ensures
        a == b,
{
}

/// A small, fast xorshift64* generator. Its state is never zero.
#[derive(Clone, Copy, PartialEq, Eq, Hash, Debug)]
pub struct Rng(u64);

impl Rng {
    #[verifier::type_invariant]
    spec fn state_is_nonzero(self) -> bool {
        self.0 != 0
    }

    /// The generator's state.
    pub closed spec fn state(self) -> u64 {
        self.0
    }

    /// The generator's state.
    pub fn to_bits(&self) -> (r: u64)
        ensures
            r == self.state(),
    {
        self.0
    }

    /// Create a generator from a seed; the low bit is forced on so the state
    /// is never zero.
    pub fn new(seed: u64) -> (r: Rng)
        ensures
            r.state() == seed | 1u64,
            r.state() != 0,
    {
        let s = seed | 1u64;
        assert(s != 0) by (bit_vector)
            requires
                s == seed | 1u64,
        ;
        Rng(s)
    }

    /// Advance the state one xorshift step and return the next 32-bit value.
    pub fn next_u32(&mut self) -> (r: u32)
        ensures
            final(self).state() == xorshift_step(old(self).state()),
            r == xorshift_output(final(self).state()),
            final(self).state() != 0,
    {
        proof {
            use_type_invariant(&*self);
        }
        let mut x = self.0;
        x ^= x >> 12u64;
        x ^= x << 25u64;
        x ^= x >> 27u64;
        proof {
            lemma_xorshift_step_nonzero(self.0);
        }
        self.0 = x;
        (x.wrapping_mul(XORSHIFT_STAR_MULTIPLIER) >> 32u64) as u32
    }

    /// A fixed-point value in `[0, 1)`: the high 16 bits of the next 32-bit
    /// draw used as the fractional part.
    pub fn next_fx(&mut self) -> (r: Fx)
        ensures
            final(self).state() == xorshift_step(old(self).state()),
            r.bits == (xorshift_output(final(self).state()) >> 16u32) as int,
            0 <= r.bits < 65536,
            final(self).state() != 0,
    {
        let v = self.next_u32();
        let frac = v >> 16u32;
        assert(frac < 65536) by (bit_vector)
            requires
                frac == v >> 16u32,
        ;
        Fx::from_bits(frac as i32)
    }
}

} // verus!
