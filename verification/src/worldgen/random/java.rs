use vstd::prelude::*;
use crate::worldgen::random::legacy_random::{
    lcg_step, scrambled, lemma_step, MULTIPLIER, INCREMENT, MODULUS_MASK,
};

verus! {

/// The state after `k` steps of the generator.
pub open spec fn lcg_iter(state: int, k: nat) -> int
    decreases k,
{
    if k == 0 {
        state
    } else {
        lcg_step(lcg_iter(state, (k - 1) as nat))
    }
}

/// The top `bits` bits of a 48-bit state (for `bits` up to 48), as a 32-bit value.
pub open spec fn top_bits(state: int, bits: int) -> i32 {
    (state / vstd::arithmetic::power2::pow2((48 - bits) as nat) as int) as i32
}

/// The value of a draw of 31 bits reduced into `[0, bound)` as `next_int_bounded` does.
pub open spec fn bounded_value(bits: i32, bound: i32) -> i32 {
    if bound & ((bound - 1) as i32) == 0 {
        (((bound as i64).wrapping_mul(bits as i64)) >> 31i64) as i32
    } else {
        (bits % bound) as i32
    }
}

/// The byte `next_bytes` stores at position `i` of `len` from a draw `rnd`: the draw shifted
/// right by eight bits for each further byte that would fit in it.
pub open spec fn stored_byte(rnd: i32, len: int, i: int) -> u8 {
    let n = if len - i < 4 {
        len - i
    } else {
        4
    };
    (rnd >> ((8 * (n - 1)) as u32)) as u8
}

/// The most draws `next_int_bounded` makes: one for each state of the generator.
pub const MAX_DRAWS: u64 = 0x1_0000_0000_0000;

/// Whether Java draws again after the 31-bit draw `bits` for `bound`: `bound` is not a power of
/// two and `bits - bits % bound + (bound - 1)` passes `i32::MAX`, so that the 32-bit sum wraps
/// below zero.
pub open spec fn redraws(bits: i32, bound: i32) -> bool {
    bound & ((bound - 1) as i32) != 0 && bits - bits % bound + (bound - 1) > i32::MAX
}

/// The value drawn in `[0, bound)` from `state`, and the state after it, drawing again as Java
/// does with at most `fuel` further draws; `None` when every one of them is drawn again.
pub open spec fn bounded_draw(state: int, bound: i32, fuel: nat) -> Option<(i32, int)>
    decreases fuel,
{
    let next = lcg_step(state);
    let bits = top_bits(next, 31);
    if !redraws(bits, bound) {
        Some((bounded_value(bits, bound), next))
    } else if fuel == 0 {
        None
    } else {
        bounded_draw(next, bound, (fuel - 1) as nat)
    }
}

/// The 64-bit value with `hi` in the high half plus `lo`, wrapping around.
pub open spec fn joined_long(hi: i32, lo: i32) -> i64 {
    let v = hi as int * 0x1_0000_0000 + lo as int;
    if v < i64::MIN {
        (v + 0x1_0000_0000_0000_0000) as i64
    } else {
        v as i64
    }
}

/// Shifts `hi` into the high half and adds `lo`, wrapping around.
fn join_long(hi: i32, lo: i32) -> (r: i64)
    ensures
        r == joined_long(hi, lo),
{
    let h = (hi as i64) << 32i64;
    assert(h == hi as int * 0x1_0000_0000) by (bit_vector)
        requires h == (hi as i64) << 32i64;
    assert(hi as int * 0x1_0000_0000 + lo as int <= i64::MAX) by (nonlinear_arith)
        requires
            hi <= i32::MAX,
            lo <= i32::MAX,
    ;
    h.wrapping_add(lo as i64)
}

/// A generator that reproduces the integer outputs of `java.util.Random`.
pub struct JavaRandom {
    seed: i64,
    have_next_next_gaussian: bool,
}

impl JavaRandom {
    /// The state of the generator.
    pub closed spec fn state(&self) -> int {
        self.seed as int
    }

    /// Whether a second normally distributed value is waiting.
    pub closed spec fn has_gaussian(&self) -> bool {
        self.have_next_next_gaussian
    }

    /// A generator whose state is the scrambled seed: `(seed ^ 0x5DEECE66D) & (2^48 - 1)`.
    pub fn with_seed(seed: i64) -> (r: JavaRandom)
        ensures
            r.state() == scrambled(seed),
            !r.has_gaussian(),
    {
        let mut r = JavaRandom { seed: 0, have_next_next_gaussian: false };
        r.set_seed(seed);
        r
    }

    /// A generator whose state is `seed` exactly.
    pub fn with_raw_seed(seed: i64) -> (r: JavaRandom)
        ensures
            r.state() == seed,
            !r.has_gaussian(),
    {
        JavaRandom { seed, have_next_next_gaussian: false }
    }

    /// Resets the state to the scrambled seed and drops any waiting normal value.
    pub fn set_seed(&mut self, seed: i64)
        ensures
            final(self).state() == scrambled(seed),
            !final(self).has_gaussian(),
    {
        self.seed = (seed ^ MULTIPLIER) & MODULUS_MASK;
        proof {
            lemma_scramble(seed);
        }
        self.have_next_next_gaussian = false;
    }

    /// Whether a second normally distributed value is waiting.
    pub fn has_next_gaussian(&self) -> (b: bool)
        ensures
            b == self.has_gaussian(),
    {
        self.have_next_next_gaussian
    }

    /// Marks whether a second normal value is waiting; the value itself is kept by the caller.
    pub fn set_has_gaussian(&mut self, waiting: bool)
        ensures
            final(self).state() == old(self).state(),
            final(self).has_gaussian() == waiting,
    {
        self.have_next_next_gaussian = waiting;
    }

    /// Advances the generator and returns the top `bits` bits of its new state.
    pub fn next(&mut self, bits: i32) -> (r: i32)
        requires
            0 <= bits <= 48,
        ensures
            final(self).state() == lcg_step(old(self).state()),
            r == top_bits(lcg_step(old(self).state()), bits as int),
            final(self).has_gaussian() == old(self).has_gaussian(),
    {
        let old_seed = self.seed;
        let next_seed = (old_seed.wrapping_mul(MULTIPLIER).wrapping_add(INCREMENT)) & MODULUS_MASK;
        proof {
            lemma_step(old_seed);
        }
        self.seed = next_seed;
        let shift: u32 = (48 - bits) as u32;
        let shifted = next_seed >> shift;
        proof {
            let u = next_seed as u64;
            assert(shifted == (u >> (shift as u64)) as i64 && (u >> (shift as u64)) <= i64::MAX)
                by (bit_vector)
                requires
                    next_seed >= 0,
                    u == next_seed as u64,
                    0 <= shift < 64,
                    shifted == next_seed >> shift,
            ;
            vstd::bits::lemma_u64_shr_is_div(u, shift as u64);
        }
        shifted as i32
    }

    /// Draws 32 bits.
    pub fn next_int(&mut self) -> (r: i32)
        ensures
            final(self).state() == lcg_step(old(self).state()),
            r == top_bits(lcg_step(old(self).state()), 32),
            final(self).has_gaussian() == old(self).has_gaussian(),
    {
        self.next(32)
    }

    /// Draws a value in `[0, bound)`: the top 31 bits scaled by `bound` when `bound` is a power
    /// of two, else reduced modulo `bound`, drawing again while a draw falls in the uneven top
    /// part of the range (where the 32-bit test `bits - value + (bound - 1)` wraps below zero).
    /// The draws it makes are at most `MAX_DRAWS`, the number of states of the generator.
    pub fn next_int_bounded(&mut self, bound: i32) -> (r: i32)
        requires
            bound > 0,
            bounded_draw(old(self).state(), bound, (MAX_DRAWS - 1) as nat) is Some,
        ensures
            bounded_draw(old(self).state(), bound, (MAX_DRAWS - 1) as nat) == Some(
                (r, final(self).state()),
            ),
            final(self).has_gaussian() == old(self).has_gaussian(),
    {
        match self.try_next_int_bounded(bound) {
            Some(v) => v,
            None => vstd::pervasive::unreached(),
        }
    }

    /// Draws 64 bits: two draws of 32 bits, the first in the high half, added with
    /// wrap-around.
    #[verifier::rlimit(30)]
    pub fn next_long(&mut self) -> (r: i64)
        ensures
            final(self).state() == lcg_iter(old(self).state(), 2),
            r == joined_long(
                top_bits(lcg_step(old(self).state()), 32),
                top_bits(lcg_iter(old(self).state(), 2), 32),
            ),
            final(self).has_gaussian() == old(self).has_gaussian(),
    {
        proof {
            reveal_with_fuel(lcg_iter, 3);
        }
        let hi = self.next(32);
        let lo = self.next(32);
        join_long(hi, lo)
    }

    /// `next_int_bounded` on every input: `None`, with the generator untouched, when `bound` is
    /// not positive or when `MAX_DRAWS` draws in a row all fall where a draw is made again.
    pub fn try_next_int_bounded(&mut self, bound: i32) -> (r: Option<i32>)
        ensures
            bound <= 0 ==> r is None && final(self).state() == old(self).state(),
            bound > 0 ==> match bounded_draw(old(self).state(), bound, (MAX_DRAWS - 1) as nat) {
                Some((v, s)) => r == Some(v) && final(self).state() == s,
                None => r is None && final(self).state() == old(self).state(),
            },
            final(self).has_gaussian() == old(self).has_gaussian(),
    {
        if bound <= 0 {
            return None;
        }
        let saved = self.seed;
        let ghost s0 = self.state();
        let mut fuel: u64 = MAX_DRAWS - 1;
        loop
            invariant
                bound > 0,
                saved as int == s0,
                s0 == old(self).state(),
                bounded_draw(s0, bound, (MAX_DRAWS - 1) as nat) == bounded_draw(
                    self.state(),
                    bound,
                    fuel as nat,
                ),
                self.has_gaussian() == old(self).has_gaussian(),
            decreases fuel,
        {
            let ghost before = self.state();
            let bits = self.next(31);
            proof {
                lemma_top_bits_range(lcg_step(before), 31);
            }
            if (bound & (bound - 1)) == 0 {
                return Some(((bound as i64).wrapping_mul(bits as i64) >> 31i64) as i32);
            }
            let val = bits % bound;
            if bits - val <= i32::MAX - (bound - 1) {
                return Some(val);
            }
            if fuel == 0 {
                self.seed = saved;
                return None;
            }
            fuel -= 1;
        }
    }

    /// Draws one bit.
    pub fn next_bool(&mut self) -> (r: bool)
        ensures
            final(self).state() == lcg_step(old(self).state()),
            r == (top_bits(lcg_step(old(self).state()), 1) != 0),
            final(self).has_gaussian() == old(self).has_gaussian(),
    {
        self.next(1) != 0
    }

    /// Fills `bytes`, drawing 32 bits for each byte: the byte at `i` is the draw shifted right
    /// by eight bits for each further byte that would fit in it.
    pub fn next_bytes(&mut self, bytes: &mut [u8])
        ensures
            final(self).state() == lcg_iter(old(self).state(), old(bytes)@.len()),
            final(self).has_gaussian() == old(self).has_gaussian(),
            final(bytes)@.len() == old(bytes)@.len(),
            forall|i: int|
                0 <= i < old(bytes)@.len() ==> final(bytes)@[i] == stored_byte(
                    top_bits(lcg_iter(old(self).state(), (i + 1) as nat), 32),
                    old(bytes)@.len() as int,
                    i,
                ),
    {
        let len = bytes.len();
        let mut i: usize = 0;
        while i < len
            invariant
                len == bytes@.len(),
                len == old(bytes)@.len(),
                0 <= i <= len,
                self.state() == lcg_iter(old(self).state(), i as nat),
                self.has_gaussian() == old(self).has_gaussian(),
                forall|k: int|
                    0 <= k < i ==> bytes@[k] == stored_byte(
                        top_bits(lcg_iter(old(self).state(), (k + 1) as nat), 32),
                        len as int,
                        k,
                    ),
            decreases len - i,
        {
            let rnd = self.next_int();
            let n: usize = if len - i < 4 {
                len - i
            } else {
                4
            };
            let b = (rnd >> ((8 * (n - 1)) as u32)) as u8;
            bytes[i] = b;
            i += 1;
        }
    }
}

proof fn lemma_scramble(seed: i64)
    ensures
        ((seed ^ MULTIPLIER) & MODULUS_MASK) as int == scrambled(seed),
{
    let a = seed ^ MULTIPLIER;
    let u = a as u64;
    assert((a & 281474976710655i64) == (u % 0x1_0000_0000_0000u64) as i64) by (bit_vector)
        requires u == a as u64;
    assert(u as int == (a as int) % 0x1_0000_0000_0000_0000) by (bit_vector)
        requires u == a as u64;
    vstd::arithmetic::div_mod::lemma_mod_mod(a as int, 0x1_0000_0000_0000, 0x1_0000);
}

proof fn lemma_top_bits_range(state: int, bits: int)
    requires
        0 <= state < 0x1_0000_0000_0000,
        bits == 31,
    ensures
        0 <= top_bits(state, bits) <= i32::MAX,
{
    vstd::arithmetic::power2::lemma2_to64();
    let d = vstd::arithmetic::power2::pow2(17);
    assert(d == 0x20000);
    assert(0 <= state / 0x20000 < 0x8000_0000) by (nonlinear_arith)
        requires 0 <= state < 0x1_0000_0000_0000;
}

/// The byte `next_bytes` stores at position `i` of `len` from the draw `rnd` is the draw's
/// byte numbered `n - 1` from the low end, read as an unsigned 32-bit number, where `n` is how
/// many bytes of the buffer from `i` on fit in a draw (at most four): the last byte of the
/// buffer keeps the lowest byte of its draw, and a byte with three or more after it the highest.
pub proof fn law_next_bytes_byte(rnd: i32, len: int, i: int)
    requires
        0 <= i < len,
    ensures
        ({
            let n = if len - i < 4 {
                len - i
            } else {
                4
            };
            stored_byte(rnd, len, i) as int == (rnd as u32) as int / vstd::arithmetic::power2::pow2(
                (8 * (n - 1)) as nat,
            ) as int % 256
        }),
{
    let n = if len - i < 4 {
        len - i
    } else {
        4
    };
    let ku: u32 = (8 * (n - 1)) as u32;
    let u: u32 = rnd as u32;
    assert((rnd >> ku) as u8 == (u >> ku) as u8 && ((u >> ku) as u8) as u32 == (u >> ku) % 256)
        by (bit_vector)
        requires
            u == rnd as u32,
            ku <= 24,
    ;
    vstd::bits::lemma_u32_shr_is_div(u, ku);
}

} // verus!
