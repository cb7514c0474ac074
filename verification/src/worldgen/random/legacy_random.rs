use vstd::prelude::*;
use crate::worldgen::random::util::{get_pos_seed, java_string_hash, java_hash, pos_seed};

verus! {

/// Number of bits of state of the linear congruential generator.
pub const MODULUS_BITS: u8 = 48;
/// `2^48 - 1`: keeps the low 48 bits of the state.
pub const MODULUS_MASK: i64 = 281474976710655;
/// The multiplier of the generator.
pub const MULTIPLIER: i64 = 25214903917;
/// The increment of the generator.
pub const INCREMENT: i64 = 11;

/// One step of the generator: `(seed * 0x5DEECE66D + 11) mod 2^48`.
pub open spec fn lcg_step(seed: int) -> int {
    (seed * 25214903917 + 11) % 0x1_0000_0000_0000
}

/// Masking a 64-bit value to its low 48 bits keeps its value modulo `2^48`.
proof fn lemma_mask_mod(a: i64)
    ensures
        (a & MODULUS_MASK) as int == (a as int) % 0x1_0000_0000_0000,
{
    let u = a as u64;
    assert((a & 281474976710655i64) == (u % 0x1_0000_0000_0000u64) as i64) by (bit_vector)
        requires u == a as u64;
    assert(u as int == (a as int) % 0x1_0000_0000_0000_0000) by (bit_vector)
        requires u == a as u64;
    vstd::arithmetic::div_mod::lemma_mod_mod(a as int, 0x1_0000_0000_0000, 0x1_0000);
}

/// 2^64.
pub open spec fn two64() -> int {
    0x1_0000_0000_0000_0000
}

/// Wrapping multiplication agrees with exact multiplication modulo `2^64`.
pub proof fn lemma_wrapping_mul_mod(x: i64, y: i64)
    ensures
        (x.wrapping_mul(y) as int) % two64() == (x as int * y as int) % two64(),
{
    let p = x as int * y as int;
    let r = p % two64();
    if r > i64::MAX {
        vstd::arithmetic::div_mod::lemma_mod_sub_multiples_vanish(r, two64());
        vstd::arithmetic::div_mod::lemma_mod_twice(p, two64());
    } else {
        vstd::arithmetic::div_mod::lemma_mod_twice(p, two64());
    }
}

/// Wrapping addition agrees with exact addition modulo `2^64`.
pub proof fn lemma_wrapping_add_mod(x: i64, y: i64)
    ensures
        (x.wrapping_add(y) as int) % two64() == (x as int + y as int) % two64(),
{
    let s = x as int + y as int;
    if s > i64::MAX {
        vstd::arithmetic::div_mod::lemma_mod_sub_multiples_vanish(s, two64());
    } else if s < i64::MIN {
        vstd::arithmetic::div_mod::lemma_mod_add_multiples_vanish(s, two64());
    }
}

/// Values that agree modulo `2^64` agree modulo any power of two below it, here `2^48`.
proof fn lemma_mod_down(a: int, b: int)
    requires
        a % two64() == b % two64(),
    ensures
        a % 0x1_0000_0000_0000 == b % 0x1_0000_0000_0000,
{
    vstd::arithmetic::div_mod::lemma_mod_mod(a, 0x1_0000_0000_0000, 0x1_0000);
    vstd::arithmetic::div_mod::lemma_mod_mod(b, 0x1_0000_0000_0000, 0x1_0000);
}

/// The exec step of the generator computes `lcg_step`.
pub proof fn lemma_step(seed: i64)
    ensures
        (seed.wrapping_mul(MULTIPLIER).wrapping_add(INCREMENT) & MODULUS_MASK) as int == lcg_step(
            seed as int,
        ),
{
    let m = seed.wrapping_mul(MULTIPLIER);
    let a = m.wrapping_add(INCREMENT);
    lemma_wrapping_mul_mod(seed, MULTIPLIER);
    lemma_wrapping_add_mod(m, INCREMENT);
    lemma_mask_mod(a);
    // a ≡ m + 11 ≡ seed * M + 11 (mod 2^64)
    vstd::arithmetic::div_mod::lemma_add_mod_noop(m as int, 11, two64());
    vstd::arithmetic::div_mod::lemma_add_mod_noop(seed as int * MULTIPLIER as int, 11, two64());
    lemma_mod_down(a as int, seed as int * 25214903917 + 11);
}

/// The state a seed scrambles to: `(seed ^ 0x5DEECE66D) & (2^48 - 1)`.
pub open spec fn scrambled(seed: i64) -> int {
    ((seed ^ MULTIPLIER) as int) % 0x1_0000_0000_0000
}

/// The `bits` high bits of a 48-bit state, as a 32-bit value.
pub open spec fn high_bits(state: int, bits: nat) -> i32 {
    (state / vstd::arithmetic::power2::pow2((48 - bits) as nat) as int) as i32
}

/// The value `next_long` produces from two consecutive outputs of 32 bits: the first shifted
/// up by 32 bits plus the second, wrapping.
pub open spec fn long_from(hi: i32, lo: i32) -> i64 {
    ((hi as i64) << 32i64).wrapping_add(lo as i64)
}

/// The value `next_long` draws from `state` and the state it leaves behind.
pub open spec fn next_long_spec(state: int) -> (i64, int) {
    let s1 = lcg_step(state);
    let s2 = lcg_step(s1);
    (long_from(high_bits(s1, 32), high_bits(s2, 32)), s2)
}

/// A 48-bit linear congruential generator, as in `java.util.Random`.
pub struct LegacyRandom {
    seed: i64,
}

impl LegacyRandom {
    /// The 48-bit state of the generator.
    pub closed spec fn state(&self) -> int {
        self.seed as int
    }

    /// A generator whose state is the scrambled seed.
    pub fn new(seed: i64) -> (r: LegacyRandom)
        ensures
            r.state() == scrambled(seed),
    {
        let r = LegacyRandom { seed: (seed ^ MULTIPLIER) & MODULUS_MASK };
        proof {
            lemma_mask_mod(seed ^ MULTIPLIER);
        }
        r
    }

    /// Resets the state to the scrambled seed.
    pub fn set_seed(&mut self, seed: i64)
        ensures
            final(self).state() == scrambled(seed),
    {
        self.seed = (seed ^ MULTIPLIER) & MODULUS_MASK;
        proof {
            lemma_mask_mod(seed ^ MULTIPLIER);
        }
    }

    /// Advances the generator and returns the `bits` high bits of its new state.
    pub fn next_bits(&mut self, bits: u8) -> (r: i32)
        requires
            bits <= 48,
        ensures
            final(self).state() == lcg_step(old(self).state()),
            r == high_bits(lcg_step(old(self).state()), bits as nat),
    {
        let orig_seed = self.seed;
        let new_seed = (orig_seed.wrapping_mul(MULTIPLIER).wrapping_add(INCREMENT)) & MODULUS_MASK;
        proof {
            lemma_step(orig_seed);
            lemma_mask_mod(orig_seed.wrapping_mul(MULTIPLIER).wrapping_add(INCREMENT));
        }
        self.seed = new_seed;
        let shift: u8 = MODULUS_BITS - bits;
        let shifted = new_seed >> shift;
        let r = shifted as i32;
        proof {
            let u = new_seed as u64;
            assert(shifted == (u >> (shift as u64)) as i64 && (u >> (shift as u64)) <= i64::MAX)
                by (bit_vector)
                requires
                    new_seed >= 0,
                    u == new_seed as u64,
                    shift < 64,
                    shifted == new_seed >> shift,
            ;
            vstd::bits::lemma_u64_shr_is_div(u, shift as u64);
        }
        r
    }

    /// Draws a 64-bit value: two outputs of 32 bits, the first in the high half.
    pub fn next_long(&mut self) -> (r: i64)
        ensures
            (r, final(self).state()) == next_long_spec(old(self).state()),
    {
        let hi = self.next_bits(32);
        let lo = self.next_bits(32);
        ((hi as i64) << 32i64).wrapping_add(lo as i64)
    }

    /// A new generator seeded with the next 64-bit value of this one.
    pub fn fork(&mut self) -> (r: LegacyRandom)
        ensures
            final(self).state() == next_long_spec(old(self).state()).1,
            r.state() == scrambled(next_long_spec(old(self).state()).0),
    {
        let seed = self.next_long();
        LegacyRandom::new(seed)
    }

    /// A positional generator based on the next 64-bit value of this one.
    pub fn fork_positional(&mut self) -> (r: LegacyPositionalRandom)
        ensures
            final(self).state() == next_long_spec(old(self).state()).1,
            r.seed() == next_long_spec(old(self).state()).0,
    {
        LegacyPositionalRandom { seed: self.next_long() }
    }
}

/// Builds generators from positions and names, based on a fixed seed.
pub struct LegacyPositionalRandom {
    seed: i64,
}

impl LegacyPositionalRandom {
    /// The base seed.
    pub closed spec fn seed(&self) -> i64 {
        self.seed
    }

    /// A generator for the given block position.
    pub fn fork_at(&self, x: i32, y: i32, z: i32) -> (r: LegacyRandom)
        ensures
            r.state() == scrambled(pos_seed(x, y, z) ^ self.seed()),
    {
        let positional_seed = get_pos_seed(x, y, z);
        let new_seed = positional_seed ^ self.seed;
        LegacyRandom::new(new_seed)
    }

    /// A generator for the given name, by its Java string hash.
    pub fn fork_from_hashed_string(&self, str: &str) -> (r: LegacyRandom)
        ensures
            r.state() == scrambled((java_hash(str@) as i64) ^ self.seed()),
    {
        let hash = java_string_hash(str);
        LegacyRandom::new(hash as i64 ^ self.seed)
    }
}

} // verus!
