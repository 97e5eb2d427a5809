use vstd::prelude::*;

verus! {

/// A source of values of type `T`.
pub trait Rng<T> {
    fn next(&mut self) -> T;
}

/// The multiplier of the PCG32 linear congruential step.
pub const PCG_MULTIPLIER: u64 = 6_364_136_223_846_793_005u64;

/// The state after one PCG32 step: `state * PCG_MULTIPLIER + (inc | 1)`,
/// modulo 2^64.
pub open spec fn pcg_advance(state: u64, inc: u64) -> u64 {
    ((state as int * PCG_MULTIPLIER as int + (inc | 1u64) as int) % 0x1_0000_0000_0000_0000int) as u64
}

/// `x` rotated right by `r` bits (`r < 32`).
pub open spec fn rotate_right_32(x: u32, r: u32) -> u32 {
    if r == 0 {
        x
    } else {
        (x >> r) | (x << ((32 - r) as u32))
    }
}

/// The PCG32 output for a state: the xorshifted high bits, rotated right by
/// the top five bits of the state.
pub open spec fn pcg_output(state: u64) -> u32 {
    rotate_right_32(
        #[verifier::truncate] ((((state >> 18u64) ^ state) >> 27u64) as u32),
        #[verifier::truncate] ((state >> 59u64) as u32),
    )
}

/// Permuted congruential generator (PCG32, XSH RR variant).
pub struct Pcg32Rng {
    state: u64,
    inc: u64,
}

impl Pcg32Rng {
    pub closed spec fn state(&self) -> u64 {
        self.state
    }

    pub closed spec fn increment(&self) -> u64 {
        self.inc
    }

    /// A generator with the given state and increment.
    pub fn from_parts(state: u64, inc: u64) -> (r: Self)
        ensures
            r.state() == state,
            r.increment() == inc,
    {
        Pcg32Rng { state, inc }
    }

    /// The bit pattern of a 32-bit float in [1, 2) whose mantissa is the top
    /// 23 bits of the next output; the generator advances one step.
    pub fn next_unit_bits(&mut self) -> (bits: u32)
        ensures
            final(self).state() == pcg_advance(old(self).state(), old(self).increment()),
            final(self).increment() == old(self).increment(),
            bits == (pcg_output(old(self).state()) >> 9u32) | 0x3f80_0000u32,
    {
        let next_u32: u32 = self.next();
        (next_u32 >> 9) | 0x3f80_0000u32
    }
}

impl Default for Pcg32Rng {
    fn default() -> (r: Self)
        ensures
            r.state() == 0x1801_3CAD_3A48_3F72u64,
            r.increment() == 0x51DB_FCDA_0D6B_21D4u64,
    {
        Pcg32Rng { state: 0x1801_3CAD_3A48_3F72u64, inc: 0x51DB_FCDA_0D6B_21D4u64 }
    }
}

proof fn lemma_rotate(x: u32, rot: u32)
    requires
        rot < 32,
    ensures
        (x >> rot) | (x << ((0u32.wrapping_sub(rot)) & 31u32)) == rotate_right_32(x, rot),
{
    let neg = 0u32.wrapping_sub(rot);
    assert(neg == ((0x1_0000_0000int - rot as int) % 0x1_0000_0000int) as u32);
    if rot == 0 {
        assert(neg == 0);
        assert((x >> 0u32) | (x << (0u32 & 31u32)) == x) by (bit_vector);
    } else {
        assert(neg == (0x1_0000_0000int - rot as int) as u32);
        assert(rot > 0 && rot < 32 ==> ((0xffff_ffffu32 - rot + 1) as u32) & 31u32 == (32 - rot) as u32)
            by (bit_vector);
    }
}

impl Rng<u32> for Pcg32Rng {
    /// Advances the state one step and returns the output for the old state.
    fn next(&mut self) -> (r: u32)
        ensures
            final(self).state() == pcg_advance(old(self).state(), old(self).increment()),
            final(self).increment() == old(self).increment(),
            r == pcg_output(old(self).state()),
    {
        let oldstate = self.state;
        let mul = oldstate.wrapping_mul(PCG_MULTIPLIER);
        self.state = mul.wrapping_add(self.inc | 1);
        proof {
            let a = oldstate as int * PCG_MULTIPLIER as int;
            let b = (self.inc | 1u64) as int;
            let m = 0x1_0000_0000_0000_0000int;
            assert(mul as int == a % m);
            vstd::arithmetic::div_mod::lemma_add_mod_noop(a, b, m);
            vstd::arithmetic::div_mod::lemma_mod_twice(b, m);
            assert(b % m == b);
        }
        let xorshifted: u32 = #[verifier::truncate] ((((oldstate >> 18u64) ^ oldstate) >> 27u64) as u32);
        let rot: u32 = #[verifier::truncate] ((oldstate >> 59u64) as u32);
        proof {
            assert(oldstate >> 59u64 < 32) by (bit_vector);
            lemma_rotate(xorshifted, rot);
        }
        let left: u32 = 0u32.wrapping_sub(rot) & 31u32;
        proof {
            assert(0u32.wrapping_sub(rot) & 31u32 <= 31u32) by (bit_vector);
        }
        (xorshifted >> rot) | (xorshifted << left)
    }
}

} // verus!
