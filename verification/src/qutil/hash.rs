use vstd::prelude::*;

verus! {

/// Builds hashers that treat an integer of at most 64 bits as its own hash.
#[derive(Clone, Copy, Debug, PartialEq, Eq, Structural)]
pub struct NumHasher;

/// A hasher whose state is the last integer written to it; bytes written in bulk are combined
/// eight at a time with exclusive or.
pub struct NumHashIsomorphism {
    state: u64,
}

/// The byte of `s` at `i` as a 64-bit value, or zero past the end.
pub open spec fn byte_or_zero(s: Seq<u8>, i: int) -> u64 {
    if 0 <= i < s.len() {
        s[i] as u64
    } else {
        0
    }
}

/// The little-endian value of the `k`-th run of eight bytes of `s`, zero-padded past the end.
pub open spec fn le_chunk(s: Seq<u8>, k: int) -> u64 {
    byte_or_zero(s, 8 * k) | (byte_or_zero(s, 8 * k + 1) << 8u64) | (byte_or_zero(s, 8 * k + 2)
        << 16u64) | (byte_or_zero(s, 8 * k + 3) << 24u64) | (byte_or_zero(s, 8 * k + 4) << 32u64)
        | (byte_or_zero(s, 8 * k + 5) << 40u64) | (byte_or_zero(s, 8 * k + 6) << 48u64) | (
    byte_or_zero(s, 8 * k + 7) << 56u64)
}

/// The number of runs of eight bytes that `n` bytes make, the last one possibly short.
pub open spec fn chunk_count(n: int) -> int {
    if n % 8 == 0 {
        n / 8
    } else {
        n / 8 + 1
    }
}

/// `state` with the first `n` runs of eight bytes of `s` folded in by exclusive or.
pub open spec fn fold_chunks(state: u64, s: Seq<u8>, n: int) -> u64
    decreases n,
{
    if n <= 0 {
        state
    } else {
        fold_chunks(state, s, n - 1) ^ le_chunk(s, n - 1)
    }
}

/// The byte at `base + j` as a 64-bit value, or zero past the end.
fn byte_at(bytes: &[u8], base: usize, j: usize) -> (r: u64)
    requires
        base <= bytes@.len(),
        j < 8,
    ensures
        r == byte_or_zero(bytes@, base + j),
{
    if j < bytes.len() - base {
        bytes[base + j] as u64
    } else {
        0
    }
}

impl NumHasher {
    /// A hasher with a zero state.
    pub fn build_hasher(&self) -> (h: NumHashIsomorphism)
        ensures
            h.value() == 0,
    {
        NumHashIsomorphism { state: 0 }
    }
}

impl NumHashIsomorphism {
    /// The hasher's state.
    pub closed spec fn value(&self) -> u64 {
        self.state
    }

    /// The hash: the current state.
    pub fn finish(&self) -> (r: u64)
        ensures
            r == self.value(),
    {
        self.state
    }

    /// Folds `bytes` into the state with exclusive or, eight bytes at a time, each run read as
    /// a little-endian number; a last run of fewer than eight bytes is padded with zeros.
    pub fn write(&mut self, bytes: &[u8])
        ensures
            final(self).value() == fold_chunks(old(self).value(), bytes@, chunk_count(bytes@.len() as int)),
    {
        let len = bytes.len();
        let count = if len % 8 == 0 {
            len / 8
        } else {
            len / 8 + 1
        };
        let mut k: usize = 0;
        while k < count
            invariant
                len == bytes@.len(),
                count == chunk_count(len as int),
                0 <= k <= count,
                self.state == fold_chunks(old(self).value(), bytes@, k as int),
            decreases count - k,
        {
            assert(8 * k <= len) by (nonlinear_arith)
                requires
                    k < count,
                    count == chunk_count(len as int),
            ;
            let base = 8 * k;
            let w = byte_at(bytes, base, 0) | (byte_at(bytes, base, 1) << 8u64) | (byte_at(
                bytes,
                base,
                2,
            ) << 16u64) | (byte_at(bytes, base, 3) << 24u64) | (byte_at(bytes, base, 4) << 32u64)
                | (byte_at(bytes, base, 5) << 40u64) | (byte_at(bytes, base, 6) << 48u64) | (
            byte_at(bytes, base, 7) << 56u64);
            assert(w == le_chunk(bytes@, k as int));
            self.state = self.state ^ w;
            k += 1;
        }
    }

    /// Sets the state to `i` widened with its sign.
    pub fn write_i8(&mut self, i: i8)
        ensures
            final(self).value() == i as u64,
    {
        self.state = i as u64;
    }

    /// Sets the state to `i`.
    pub fn write_u8(&mut self, i: u8)
        ensures
            final(self).value() == i as u64,
    {
        self.state = i as u64;
    }

    /// Sets the state to `i` widened with its sign.
    pub fn write_i16(&mut self, i: i16)
        ensures
            final(self).value() == i as u64,
    {
        self.state = i as u64;
    }

    /// Sets the state to `i`.
    pub fn write_u16(&mut self, i: u16)
        ensures
            final(self).value() == i as u64,
    {
        self.state = i as u64;
    }

    /// Sets the state to `i` widened with its sign.
    pub fn write_i32(&mut self, i: i32)
        ensures
            final(self).value() == i as u64,
    {
        self.state = i as u64;
    }

    /// Sets the state to `i`.
    pub fn write_u32(&mut self, i: u32)
        ensures
            final(self).value() == i as u64,
    {
        self.state = i as u64;
    }

    /// Sets the state to the bits of `i`.
    pub fn write_i64(&mut self, i: i64)
        ensures
            final(self).value() == i as u64,
    {
        self.state = i as u64;
    }

    /// Sets the state to `i`.
    pub fn write_u64(&mut self, i: u64)
        ensures
            final(self).value() == i,
    {
        self.state = i;
    }
}

/// Each integer of at most 64 bits is its own hash: two values of one type hash alike only
/// when they are equal.
pub proof fn law_hash_is_injective(a8: i8, b8: i8, a16: i16, b16: i16, a32: i32, b32: i32, a64: i64, b64: i64)
    ensures
        a8 as u64 == b8 as u64 ==> a8 == b8,
        a16 as u64 == b16 as u64 ==> a16 == b16,
        a32 as u64 == b32 as u64 ==> a32 == b32,
        a64 as u64 == b64 as u64 ==> a64 == b64,
{
    assert((a8 as u64 == b8 as u64 ==> a8 == b8) && (a16 as u64 == b16 as u64 ==> a16 == b16) && (
    a32 as u64 == b32 as u64 ==> a32 == b32) && (a64 as u64 == b64 as u64 ==> a64 == b64))
        by (bit_vector);
}

} // verus!
