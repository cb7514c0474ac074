use vstd::prelude::*;
use vstd::utf8::{decode_utf8, encode_utf8, valid_utf8};

verus! {

/// Big-endian value of a sequence of bytes.
pub open spec fn be_uint(bytes: Seq<u8>) -> nat
    decreases bytes.len(),
{
    if bytes.len() == 0 {
        0
    } else {
        be_uint(bytes.drop_last()) * 256 + bytes.last() as nat
    }
}

/// Appending a byte shifts the big-endian value up by one byte.
pub proof fn lemma_be_uint_push(s: Seq<u8>, b: u8)
    ensures
        be_uint(s.push(b)) == be_uint(s) * 256 + b as nat,
{
    assert(s.push(b).drop_last() =~= s);
}

/// The big-endian value of the two bytes `[b0, b1]`.
pub proof fn lemma_be_uint_2(b0: u8, b1: u8)
    ensures
        be_uint(seq![b0, b1]) == b0 as nat * 256 + b1 as nat,
{
    lemma_be_uint_push(seq![], b0);
    assert(seq![b0] =~= Seq::<u8>::empty().push(b0));
    lemma_be_uint_push(seq![b0], b1);
    assert(seq![b0, b1] =~= seq![b0].push(b1));
    assert(be_uint(Seq::<u8>::empty()) == 0);
}

/// The big-endian value of the four bytes `[b0, b1, b2, b3]`.
pub proof fn lemma_be_uint_4(b0: u8, b1: u8, b2: u8, b3: u8)
    ensures
        be_uint(seq![b0, b1, b2, b3]) == ((b0 as nat * 256 + b1 as nat) * 256 + b2 as nat) * 256
            + b3 as nat,
{
    lemma_be_uint_2(b0, b1);
    lemma_be_uint_push(seq![b0, b1], b2);
    assert(seq![b0, b1, b2] =~= seq![b0, b1].push(b2));
    lemma_be_uint_push(seq![b0, b1, b2], b3);
    assert(seq![b0, b1, b2, b3] =~= seq![b0, b1, b2].push(b3));
}

/// The big-endian value of eight bytes.
pub proof fn lemma_be_uint_8(b0: u8, b1: u8, b2: u8, b3: u8, b4: u8, b5: u8, b6: u8, b7: u8)
    ensures
        be_uint(seq![b0, b1, b2, b3, b4, b5, b6, b7]) == ((((be_uint(seq![b0, b1, b2, b3]) * 256
            + b4 as nat) * 256 + b5 as nat) * 256 + b6 as nat) * 256 + b7 as nat),
{
    let s4 = seq![b0, b1, b2, b3];
    lemma_be_uint_push(s4, b4);
    assert(seq![b0, b1, b2, b3, b4] =~= s4.push(b4));
    lemma_be_uint_push(seq![b0, b1, b2, b3, b4], b5);
    assert(seq![b0, b1, b2, b3, b4, b5] =~= seq![b0, b1, b2, b3, b4].push(b5));
    lemma_be_uint_push(seq![b0, b1, b2, b3, b4, b5], b6);
    assert(seq![b0, b1, b2, b3, b4, b5, b6] =~= seq![b0, b1, b2, b3, b4, b5].push(b6));
    lemma_be_uint_push(seq![b0, b1, b2, b3, b4, b5, b6], b7);
    assert(seq![b0, b1, b2, b3, b4, b5, b6, b7] =~= seq![b0, b1, b2, b3, b4, b5, b6].push(b7));
}

/// The two bytes of a 16-bit value, most significant first.
pub open spec fn be_bytes_u16(v: u16) -> Seq<u8> {
    seq![(v >> 8u16) as u8, v as u8]
}

/// The four bytes of a 32-bit value, most significant first.
pub open spec fn be_bytes_i32(v: i32) -> Seq<u8> {
    seq![(v >> 24i32) as u8, (v >> 16i32) as u8, (v >> 8i32) as u8, v as u8]
}

/// The eight bytes of a 64-bit value, most significant first.
pub open spec fn be_bytes_i64(v: i64) -> Seq<u8> {
    seq![
        (v >> 56i64) as u8,
        (v >> 48i64) as u8,
        (v >> 40i64) as u8,
        (v >> 32i64) as u8,
        (v >> 24i64) as u8,
        (v >> 16i64) as u8,
        (v >> 8i64) as u8,
        v as u8,
    ]
}

/// `s` with the bytes from `at` on replaced by `bytes` (the sequence keeps its length when
/// `bytes` fits inside it).
pub open spec fn splice(s: Seq<u8>, at: int, bytes: Seq<u8>) -> Seq<u8> {
    s.take(at) + bytes + s.skip(at + bytes.len())
}

/// `128` to the power `k`.
pub open spec fn pow128(k: nat) -> nat
    decreases k,
{
    if k == 0 {
        1
    } else {
        128 * pow128((k - 1) as nat)
    }
}

/// The bits of `v` read as an unsigned 32-bit number.
pub open spec fn unsigned_bits(v: i32) -> nat {
    if v >= 0 {
        v as nat
    } else {
        (v + 0x1_0000_0000) as nat
    }
}

/// The variable-length encoding of a non-negative value: seven bits per byte, least
/// significant group first, with the high bit set on every byte but the last.
pub open spec fn varint_bytes(v: nat) -> Seq<u8>
    decreases v,
{
    if v < 128 {
        seq![v as u8]
    } else {
        seq![(v % 128 + 128) as u8] + varint_bytes(v / 128)
    }
}

/// The number of bytes of the variable-length value at the start of `s`: up to and including
/// the first byte whose high bit is clear, or `None` when no such byte exists.
pub open spec fn varint_len(s: Seq<u8>) -> Option<nat>
    decreases s.len(),
{
    if s.len() == 0 {
        None
    } else if s[0] < 128 {
        Some(1)
    } else {
        match varint_len(s.drop_first()) {
            Some(n) => Some(n + 1),
            None => None,
        }
    }
}

/// The value of the first `n` bytes of `s` read as base-128 digits (the low seven bits of each
/// byte), least significant first.
pub open spec fn varint_value(s: Seq<u8>, n: nat) -> nat
    decreases n,
{
    if n == 0 || s.len() == 0 {
        0
    } else {
        (s[0] % 128) as nat + 128 * varint_value(s.drop_first(), (n - 1) as nat)
    }
}

proof fn lemma_pow128_small()
    ensures
        pow128(1) == 0x80,
        pow128(2) == 0x4000,
        pow128(3) == 0x20_0000,
        pow128(4) == 0x1000_0000,
        pow128(5) == 0x8_0000_0000,
{
    reveal_with_fuel(pow128, 6);
}

proof fn lemma_varint_bytes_len(v: nat)
    ensures
        1 <= varint_bytes(v).len(),
        v < pow128(varint_bytes(v).len()),
        varint_bytes(v).len() > 1 ==> v >= pow128((varint_bytes(v).len() - 1) as nat),
    decreases v,
{
    if v >= 128 {
        lemma_varint_bytes_len(v / 128);
        let n = varint_bytes(v / 128).len();
        assert(varint_bytes(v).len() == n + 1);
        assert(v < pow128(n + 1)) by (nonlinear_arith)
            requires v / 128 < pow128(n), pow128(n + 1) == 128 * pow128(n), v >= 0;
        if n > 1 {
            assert(v >= pow128(n)) by (nonlinear_arith)
                requires v / 128 >= pow128((n - 1) as nat), pow128(n) == 128 * pow128((n - 1) as nat), v >= 0;
        } else {
            assert(pow128(1) == 128) by {
                reveal_with_fuel(pow128, 2);
            }
        }
    } else {
        assert(pow128(1) == 128) by {
            reveal_with_fuel(pow128, 2);
        }
    }
}

/// Every encoding is at least one byte long.
pub proof fn lemma_varint_bytes_len_pub(v: nat)
    ensures
        1 <= varint_bytes(v).len(),
{
    lemma_varint_bytes_len(v);
}

/// The encoding of a value is at most as long as any length whose range holds it.
proof fn lemma_varint_bytes_len_bound(v: nat, k: nat)
    requires
        v < pow128(k),
        k >= 1,
    ensures
        varint_bytes(v).len() <= k,
{
    lemma_varint_bytes_len(v);
    let n = varint_bytes(v).len();
    if n > k {
        lemma_pow128_monotone(k, (n - 1) as nat);
    }
}

proof fn lemma_pow128_monotone(a: nat, b: nat)
    requires
        a <= b,
    ensures
        pow128(a) <= pow128(b),
    decreases b,
{
    if a < b {
        lemma_pow128_monotone(a, (b - 1) as nat);
    }
}

/// A variable-length encoding, followed by anything, decodes to the encoded value.
pub proof fn lemma_varint_roundtrip(v: nat, rest: Seq<u8>)
    ensures
        varint_len(varint_bytes(v) + rest) == Some(varint_bytes(v).len()),
        varint_value(varint_bytes(v) + rest, varint_bytes(v).len()) == v,
    decreases v,
{
    let s = varint_bytes(v) + rest;
    if v < 128 {
        assert(s[0] == v as u8);
        assert(varint_value(s.drop_first(), 0) == 0);
    } else {
        lemma_varint_roundtrip(v / 128, rest);
        assert(s.drop_first() =~= varint_bytes(v / 128) + rest);
        assert(s[0] == (v % 128 + 128) as u8);
        assert((v % 128 + 128) % 128 == v % 128);
    }
}

/// Reading one more digit adds it at the next power of 128.
proof fn lemma_varint_value_extend(s: Seq<u8>, k: nat)
    requires
        k < s.len(),
    ensures
        varint_value(s, k + 1) == varint_value(s, k) + (s[k as int] % 128) as nat * pow128(k),
        varint_value(s, k) < pow128(k),
    decreases k,
{
    if k > 0 {
        lemma_varint_value_extend(s.drop_first(), (k - 1) as nat);
        let a = varint_value(s.drop_first(), (k - 1) as nat);
        let d = (s[k as int] % 128) as nat;
        assert(s.drop_first()[k - 1] == s[k as int]);
        assert(varint_value(s, k + 1) == (s[0] % 128) as nat + 128 * varint_value(s.drop_first(), k));
        assert(varint_value(s, k) == (s[0] % 128) as nat + 128 * varint_value(
            s.drop_first(),
            (k - 1) as nat,
        ));
        assert(128 * (a + d * pow128((k - 1) as nat)) == 128 * a + d * pow128(k)) by (nonlinear_arith)
            requires pow128(k) == 128 * pow128((k - 1) as nat);
        assert((s[0] % 128) as nat + 128 * a < pow128(k)) by (nonlinear_arith)
            requires a < pow128((k - 1) as nat), pow128(k) == 128 * pow128((k - 1) as nat),
                (s[0] % 128) < 128;
    } else {
        assert(varint_value(s.drop_first(), 0) == 0);
        assert(varint_value(s, 1) == (s[0] % 128) as nat + 128 * varint_value(s.drop_first(), 0));
        assert(pow128(0) == 1);
    }
}

/// Every byte before the end of a variable-length value has its high bit set.
proof fn lemma_varint_len_prefix(s: Seq<u8>, k: int)
    requires
        varint_len(s) matches Some(n) && 0 <= k < n - 1,
    ensures
        s[k] >= 128,
        varint_len(s) matches Some(n) && n <= s.len() && s[n - 1] < 128,
    decreases s.len(),
{
    if s[0] >= 128 {
        if k > 0 {
            lemma_varint_len_prefix(s.drop_first(), k - 1);
        } else if varint_len(s.drop_first()).unwrap() > 1 {
            lemma_varint_len_prefix(s.drop_first(), 0);
        } else {
            lemma_varint_len_end(s.drop_first());
        }
    }
}

proof fn lemma_varint_len_end(s: Seq<u8>)
    requires
        varint_len(s) is Some,
    ensures
        varint_len(s) matches Some(n) && 1 <= n <= s.len() && s[n - 1] < 128,
        forall|k: int| 0 <= k < varint_len(s).unwrap() - 1 ==> s[k] >= 128,
    decreases s.len(),
{
    if s[0] >= 128 {
        lemma_varint_len_end(s.drop_first());
        assert forall|k: int| 0 <= k < varint_len(s).unwrap() - 1 implies s[k] >= 128 by {
            if k > 0 {
                assert(s[k] == s.drop_first()[k - 1]);
            }
        }
    }
}

/// `Vec::capacity`: the number of elements the vector can hold without reallocating, which the
/// documentation guarantees is at least its length. The exact value depends on the allocator and
/// is left open.
#[verifier::external_body]
fn vec_capacity(v: &Vec<u8>) -> (c: usize)
    ensures
        c >= v@.len(),
{
    v.capacity()
}

/// `Vec::reserve_exact`: grows the allocation; the elements are left unchanged. It panics when
/// the new capacity would pass `isize::MAX` bytes, which the precondition rules out.
#[verifier::external_body]
fn vec_reserve_exact(v: &mut Vec<u8>, additional: usize)
    requires
        old(v)@.len() + additional <= isize::MAX,
    ensures
        final(v)@ == old(v)@,
{
    v.reserve_exact(additional)
}

/// Writing one more byte right after a spliced run extends the run.
pub proof fn lemma_splice_push(s: Seq<u8>, at: int, run: Seq<u8>, b: u8)
    requires
        0 <= at,
        at + run.len() < s.len(),
    ensures
        splice(s, at, run).update(at + run.len(), b) == splice(s, at, run.push(b)),
{
    let e = at + run.len();
    let lhs = splice(s, at, run).update(e, b);
    let rhs = splice(s, at, run.push(b));
    assert(s.take(at).len() == at);
    assert(s.skip(e).len() == s.len() - e);
    assert(s.skip(e + 1).len() == s.len() - e - 1);
    assert forall|i: int| 0 <= i < s.len() implies lhs[i] == rhs[i] by {
        if i < at {
            assert(lhs[i] == s.take(at)[i]);
            assert(rhs[i] == s.take(at)[i]);
        } else if i < e {
            assert(lhs[i] == run[i - at]);
            assert(rhs[i] == run.push(b)[i - at]);
        } else if i == e {
            assert(rhs[i] == run.push(b)[i - at]);
        } else {
            assert(lhs[i] == s.skip(e)[i - e]);
            assert(rhs[i] == s.skip(e + 1)[i - e - 1]);
        }
    }
    assert(lhs =~= rhs);
}

/// Two runs spliced one after the other are one run spliced.
pub proof fn lemma_splice_concat(s: Seq<u8>, at: int, a: Seq<u8>, b: Seq<u8>)
    requires
        0 <= at,
        at + a.len() + b.len() <= s.len(),
    ensures
        splice(splice(s, at, a), at + a.len(), b) == splice(s, at, a + b),
        splice(s, at, a).len() == s.len(),
{
    let t = splice(s, at, a);
    let lhs = splice(t, at + a.len(), b);
    let rhs = splice(s, at, a + b);
    assert(t.len() == s.len());
    assert forall|i: int| 0 <= i < s.len() implies lhs[i] == rhs[i] by {
        if i < at {
        } else if i < at + a.len() {
            assert(lhs[i] == t[i]);
            assert(rhs[i] == (a + b)[i - at]);
        } else if i < at + a.len() + b.len() {
            assert(rhs[i] == (a + b)[i - at]);
        } else {
            assert(lhs[i] == t[i]);
        }
    }
    assert(lhs =~= rhs);
}

/// A run of bytes with their high bit set, followed by one without, is a variable-length value
/// of that many bytes.
pub proof fn lemma_varint_len_at(s: Seq<u8>, k: int)
    requires
        0 <= k < s.len(),
        s[k] < 128,
        forall|j: int| 0 <= j < k ==> s[j] >= 128,
    ensures
        varint_len(s) == Some((k + 1) as nat),
    decreases k,
{
    if k > 0 {
        lemma_varint_len_at(s.drop_first(), k - 1);
    }
}

/// A run of `m` bytes with their high bit set starts no variable-length value of `m` bytes or
/// fewer.
pub proof fn lemma_varint_len_longer(s: Seq<u8>, m: int)
    requires
        0 <= m <= s.len(),
        forall|j: int| 0 <= j < m ==> s[j] >= 128,
    ensures
        varint_len(s) matches Some(n) ==> n > m,
    decreases m,
{
    if m > 0 {
        lemma_varint_len_longer(s.drop_first(), m - 1);
    }
}

/// `s` cut or zero-padded to length `n`.
pub open spec fn resized(s: Seq<u8>, n: nat) -> Seq<u8> {
    if n <= s.len() {
        s.take(n as int)
    } else {
        s + Seq::new((n - s.len()) as nat, |i: int| 0u8)
    }
}

/// `std::str::from_utf8`: succeeds exactly on valid UTF-8, and then holds the decoded characters.
#[verifier::external_body]
fn str_from_utf8(bytes: &[u8]) -> (r: Option<&str>)
    ensures
        r is Some <==> valid_utf8(bytes@),
        r matches Some(text) ==> text@ == decode_utf8(bytes@),
{
    std::str::from_utf8(bytes).ok()
}

/// The bytes `read_string` turns into text: invalid UTF-8 gives the empty string.
pub open spec fn text_of(bytes: Seq<u8>) -> Seq<char> {
    if valid_utf8(bytes) {
        decode_utf8(bytes)
    } else {
        Seq::empty()
    }
}

/// A growable byte buffer with a read/write cursor, used to encode and decode packets.
pub struct ByteBuffer {
    inner: Vec<u8>,
    cursor: usize,
}

impl From<&[u8]> for ByteBuffer {
    /// A buffer holding a copy of `bytes`, with its cursor at the start.
    fn from(bytes: &[u8]) -> (buf: Self)
        ensures
            buf.contents() == bytes@,
            buf.position() == 0,
    {
        ByteBuffer { inner: vstd::slice::slice_to_vec(bytes), cursor: 0 }
    }
}

/// Two buffers with the same bytes and cursor may still differ in their allocation, so `from`
/// is not held to a single value: its own contract says what the buffer holds.
impl vstd::std_specs::convert::FromSpecImpl<&[u8]> for ByteBuffer {
    open spec fn obeys_from_spec() -> bool {
        false
    }

    closed spec fn from_spec(bytes: &[u8]) -> Self {
        choose|b: ByteBuffer| b.contents() == bytes@ && b.position() == 0
    }
}

impl ByteBuffer {
    /// The bytes held by the buffer.
    pub closed spec fn contents(&self) -> Seq<u8> {
        self.inner@
    }

    /// The position of the cursor.
    pub closed spec fn position(&self) -> nat {
        self.cursor as nat
    }

    /// The `n` bytes that follow the cursor.
    pub open spec fn ahead(&self, n: int) -> Seq<u8> {
        self.contents().subrange(self.position() as int, self.position() as int + n)
    }

    /// A buffer holding `initial_size` zero bytes, with its cursor at the start.
    pub fn new(initial_size: usize) -> (buf: ByteBuffer)
        ensures
            buf.contents() == Seq::new(initial_size as nat, |i: int| 0u8),
            buf.position() == 0,
    {
        let inner: Vec<u8> = vec![0u8; initial_size];
        let buf = ByteBuffer { inner, cursor: 0 };
        assert(buf.contents() =~= Seq::new(initial_size as nat, |i: int| 0u8));
        buf
    }

    #[inline]
    pub fn len(&self) -> (n: usize)
        ensures
            n == self.contents().len(),
    {
        self.inner.len()
    }

    #[inline]
    pub fn cursor(&self) -> (c: usize)
        ensures
            c == self.position(),
    {
        self.cursor
    }

    #[inline]
    pub fn reset_cursor(&mut self)
        ensures
            final(self).contents() == old(self).contents(),
            final(self).position() == 0,
    {
        self.cursor = 0;
    }

    /// The byte at `index`, wherever the cursor is.
    #[inline]
    pub fn get(&self, index: usize) -> (byte: u8)
        requires
            index < self.contents().len(),
        ensures
            byte == self.contents()[index as int],
    {
        self.inner[index]
    }

    /// Moves the cursor to `cursor`.
    #[inline]
    pub fn set_cursor(&mut self, cursor: usize)
        ensures
            final(self).contents() == old(self).contents(),
            final(self).position() == cursor,
    {
        self.cursor = cursor;
    }

    /// Reads the byte under the cursor and moves the cursor past it.
    #[inline]
    pub fn read(&mut self) -> (byte: u8)
        requires
            old(self).position() < old(self).contents().len(),
        ensures
            byte == old(self).contents()[old(self).position() as int],
            final(self).contents() == old(self).contents(),
            final(self).position() == old(self).position() + 1,
    {
        let byte = self.inner[self.cursor];
        proof {
            vstd::std_specs::vec::axiom_spec_len(&self.inner);
        }
        self.cursor += 1;
        byte
    }

    #[inline]
    pub fn read_bool(&mut self) -> (b: bool)
        requires
            old(self).position() < old(self).contents().len(),
        ensures
            b == (old(self).contents()[old(self).position() as int] != 0),
            final(self).contents() == old(self).contents(),
            final(self).position() == old(self).position() + 1,
    {
        self.read() != 0
    }

    #[inline]
    pub fn read_u8(&mut self) -> (b: u8)
        requires
            old(self).position() < old(self).contents().len(),
        ensures
            b == old(self).contents()[old(self).position() as int],
            final(self).contents() == old(self).contents(),
            final(self).position() == old(self).position() + 1,
    {
        self.read()
    }

    #[inline]
    pub fn read_i8(&mut self) -> (b: i8)
        requires
            old(self).position() < old(self).contents().len(),
        ensures
            b == old(self).contents()[old(self).position() as int] as i8,
            final(self).contents() == old(self).contents(),
            final(self).position() == old(self).position() + 1,
    {
        self.read() as i8
    }

    /// Reads a big-endian unsigned 16-bit value.
    pub fn read_u16(&mut self) -> (v: u16)
        requires
            old(self).position() + 2 <= old(self).contents().len(),
        ensures
            v as nat == be_uint(
                old(self).ahead(2),
            ),
            final(self).contents() == old(self).contents(),
            final(self).position() == old(self).position() + 2,
    {
        let ghost c = self.cursor as int;
        let b0 = self.read();
        let b1 = self.read();
        let v = (b0 as u16) << 8u16 | (b1 as u16);
        proof {
            assert(v == b0 as nat * 256 + b1 as nat) by (bit_vector)
                requires
                    v == (b0 as u16) << 8u16 | (b1 as u16),
            ;
            lemma_be_uint_2(b0, b1);
            assert(self.inner@.subrange(c, c + 2) =~= seq![b0, b1]);
        }
        v
    }

    /// Reads a big-endian signed 16-bit value.
    pub fn read_i16(&mut self) -> (v: i16)
        requires
            old(self).position() + 2 <= old(self).contents().len(),
        ensures
            v == be_uint(
                old(self).ahead(2),
            ) as i16,
            final(self).contents() == old(self).contents(),
            final(self).position() == old(self).position() + 2,
    {
        self.read_u16() as i16
    }

    /// Reads a big-endian signed 32-bit value.
    pub fn read_i32(&mut self) -> (v: i32)
        requires
            old(self).position() + 4 <= old(self).contents().len(),
        ensures
            v == be_uint(
                old(self).ahead(4),
            ) as i32,
            final(self).contents() == old(self).contents(),
            final(self).position() == old(self).position() + 4,
    {
        let ghost c = self.cursor as int;
        let b0 = self.read();
        let b1 = self.read();
        let b2 = self.read();
        let b3 = self.read();
        let v = (b0 as i32) << 24i32 | (b1 as i32) << 16i32 | (b2 as i32) << 8i32 | (b3 as i32);
        proof {
            assert(v == (((b0 as nat * 256 + b1 as nat) * 256 + b2 as nat) * 256 + b3 as nat) as i32)
                by (bit_vector)
                requires
                    v == (b0 as i32) << 24i32 | (b1 as i32) << 16i32 | (b2 as i32) << 8i32 | (
                    b3 as i32),
            ;
            lemma_be_uint_4(b0, b1, b2, b3);
            assert(self.inner@.subrange(c, c + 4) =~= seq![b0, b1, b2, b3]);
        }
        v
    }

    /// Reads a big-endian signed 64-bit value.
    pub fn read_i64(&mut self) -> (v: i64)
        requires
            old(self).position() + 8 <= old(self).contents().len(),
        ensures
            v == be_uint(
                old(self).ahead(8),
            ) as i64,
            final(self).contents() == old(self).contents(),
            final(self).position() == old(self).position() + 8,
    {
        let ghost c = self.cursor as int;
        let b0 = self.read();
        let b1 = self.read();
        let b2 = self.read();
        let b3 = self.read();
        let b4 = self.read();
        let b5 = self.read();
        let b6 = self.read();
        let b7 = self.read();
        let v = (b0 as i64) << 56i64 | (b1 as i64) << 48i64 | (b2 as i64) << 40i64 | (b3 as i64)
            << 32i64 | (b4 as i64) << 24i64 | (b5 as i64) << 16i64 | (b6 as i64) << 8i64
            | (b7 as i64);
        proof {
            let hi: u64 = ((((b0 as u64) * 256 + b1 as u64) * 256 + b2 as u64) * 256 + b3 as u64) as u64;
            assert(hi < 0x1_0000_0000) by (nonlinear_arith)
                requires hi == ((((b0 as u64) * 256 + b1 as u64) * 256 + b2 as u64) * 256 + b3 as u64),
                    b0 < 256, b1 < 256, b2 < 256, b3 < 256;
            assert(v == ((((hi as nat * 256 + b4 as nat) * 256 + b5 as nat) * 256 + b6 as nat) * 256
                + b7 as nat) as i64) by (bit_vector)
                requires
                    hi == ((((b0 as u64) * 256 + b1 as u64) * 256 + b2 as u64) * 256 + b3 as u64),
                    hi < 0x1_0000_0000,
                    v == (b0 as i64) << 56i64 | (b1 as i64) << 48i64 | (b2 as i64) << 40i64 | (
                    b3 as i64) << 32i64 | (b4 as i64) << 24i64 | (b5 as i64) << 16i64 | (b6 as i64)
                        << 8i64 | (b7 as i64),
            ;
            lemma_be_uint_4(b0, b1, b2, b3);
            lemma_be_uint_8(b0, b1, b2, b3, b4, b5, b6, b7);
            assert(self.inner@.subrange(c, c + 8) =~= seq![b0, b1, b2, b3, b4, b5, b6, b7]);
        }
        v
    }

    /// Makes sure the buffer can hold `capacity` bytes without reallocating; its contents are
    /// unchanged. The room the allocator gives is not part of the model, so the contract speaks
    /// only of the bytes and the cursor.
    #[inline]
    pub fn ensure_capacity(&mut self, capacity: usize)
        requires
            capacity <= isize::MAX,
        ensures
            final(self).contents() == old(self).contents(),
            final(self).position() == old(self).position(),
    {
        let current = vec_capacity(&self.inner);
        if capacity > current {
            vec_reserve_exact(&mut self.inner, capacity - current);
        }
    }

    /// The number of bytes the buffer can hold without reallocating (at least its length).
    #[inline]
    pub fn capacity(&self) -> (c: usize)
        ensures
            c >= self.contents().len(),
    {
        vec_capacity(&self.inner)
    }

    /// The number of bytes after the cursor.
    #[inline]
    pub fn remaining(&self) -> (n: usize)
        requires
            self.position() <= self.contents().len(),
        ensures
            n == self.contents().len() - self.position(),
    {
        self.inner.len() - self.cursor()
    }

    /// Empties the buffer and moves the cursor to the start.
    #[inline]
    pub fn clear(&mut self)
        ensures
            final(self).contents() == Seq::<u8>::empty(),
            final(self).position() == 0,
    {
        self.inner.clear();
        self.cursor = 0;
    }

    /// Sets the length of the buffer to `size`: bytes past `size` are dropped and new bytes are
    /// zero. A cursor past the new end is moved to the end.
    pub fn resize(&mut self, size: usize)
        requires
            size <= isize::MAX,
        ensures
            final(self).contents() == resized(old(self).contents(), size as nat),
            final(self).position() == (if size < old(self).position() {
                size as nat
            } else {
                old(self).position()
            }),
    {
        let ghost before = self.inner@;
        self.ensure_capacity(size);
        if size < self.cursor {
            self.cursor = size;
        }
        self.inner.resize(size, 0u8);
        proof {
            if size > before.len() {
                assert(self.inner@ =~= before + Seq::new((size - before.len()) as nat, |i: int| 0u8))
                    by {
                    assert forall|i: int| before.len() <= i < size implies self.inner@[i] == 0u8 by {
                        assert(cloned::<u8>(0u8, self.inner@[i]));
                    }
                }
            }
        }
    }

    /// Sets the length of the buffer to the cursor plus the length of `bytes` and copies `bytes`
    /// there, after the cursor. The cursor does not move.
    pub fn append_bytes(&mut self, bytes: &[u8])
        requires
            old(self).position() + bytes@.len() <= isize::MAX,
        ensures
            final(self).contents() == resized(old(self).contents(), old(self).position())
                + bytes@,
            final(self).position() == old(self).position(),
    {
        let ghost before = self.inner@;
        let ghost c = self.cursor as int;
        self.resize(self.cursor() + bytes.len());
        let ghost mid = self.inner@;
        let mut i: usize = 0;
        while i < bytes.len()
            invariant
                self.cursor as int == c,
                c + bytes@.len() <= isize::MAX,
                mid == resized(before, (c + bytes@.len()) as nat),
                self.inner@.len() == c + bytes@.len(),
                0 <= i <= bytes@.len(),
                forall|j: int| 0 <= j < c ==> self.inner@[j] == mid[j],
                forall|j: int| 0 <= j < i ==> self.inner@[c + j] == bytes@[j],
            decreases bytes@.len() - i,
        {
            self.inner.set(self.cursor + i, bytes[i]);
            i += 1;
        }
        assert forall|j: int| 0 <= j < c implies mid[j] == resized(before, c as nat)[j] by {
            if j < before.len() {
                assert(mid[j] == before[j]);
            }
        }
        assert forall|k: int| c <= k < c + bytes@.len() implies self.inner@[k] == bytes@[k - c] by {
            assert(self.inner@[c + (k - c)] == bytes@[k - c]);
        }
        let ghost r = resized(before, c as nat);
        assert(r.len() == c);
        assert(self.inner@.len() == c + bytes@.len());
        assert forall|j: int| 0 <= j < c implies self.inner@[j] == r[j] by {
            assert(self.inner@[j] == mid[j]);
        }
        assert(self.inner@ =~= r + bytes@);
    }

    /// Writes `byte` under the cursor and moves the cursor past it.
    #[inline]
    pub fn write(&mut self, byte: u8)
        requires
            old(self).position() < old(self).contents().len(),
        ensures
            final(self).contents() == old(self).contents().update(
                old(self).position() as int,
                byte,
            ),
            final(self).position() == old(self).position() + 1,
    {
        if self.cursor >= self.inner.len() {
            self.inner.reserve(1);
        }
        self.write_unchecked(byte);
    }

    /// Writes `byte` under the cursor and moves the cursor past it.
    #[inline]
    pub fn write_unchecked(&mut self, byte: u8)
        requires
            old(self).position() < old(self).contents().len(),
        ensures
            final(self).contents() == old(self).contents().update(
                old(self).position() as int,
                byte,
            ),
            final(self).position() == old(self).position() + 1,
    {
        proof {
            vstd::std_specs::vec::axiom_spec_len(&self.inner);
        }
        self.inner.set(self.cursor, byte);
        self.cursor += 1;
    }

    /// Writes `blob` from the cursor on and moves the cursor past it.
    #[inline]
    pub fn write_bytes(&mut self, blob: &[u8])
        requires
            old(self).position() + blob@.len() <= old(self).contents().len(),
        ensures
            final(self).contents() == splice(
                old(self).contents(),
                old(self).position() as int,
                blob@,
            ),
            final(self).position() == old(self).position() + blob@.len(),
    {
        let remaining = self.inner.len() - self.cursor;
        if remaining < blob.len() {
            self.inner.reserve(remaining - blob.len());
        }
        self.write_bytes_unchecked(blob);
    }

    /// Writes `blob` from the cursor on and moves the cursor past it.
    pub fn write_bytes_unchecked(&mut self, blob: &[u8])
        requires
            old(self).position() + blob@.len() <= old(self).contents().len(),
        ensures
            final(self).contents() == splice(
                old(self).contents(),
                old(self).position() as int,
                blob@,
            ),
            final(self).position() == old(self).position() + blob@.len(),
    {
        let ghost before = self.inner@;
        let ghost c = self.cursor as int;
        proof {
            vstd::std_specs::vec::axiom_spec_len(&self.inner);
        }
        let mut i: usize = 0;
        while i < blob.len()
            invariant
                before.len() <= usize::MAX,
                self.cursor as int == c,
                c + blob@.len() <= before.len(),
                self.inner@.len() == before.len(),
                0 <= i <= blob@.len(),
                forall|j: int| 0 <= j < before.len() ==> self.inner@[j] == (if c <= j < c + i {
                    blob@[j - c]
                } else {
                    before[j]
                }),
            decreases blob@.len() - i,
        {
            self.inner.set(self.cursor + i, blob[i]);
            i += 1;
        }
        self.cursor = self.cursor + blob.len();
        assert(self.inner@ =~= splice(before, c, blob@));
    }

    #[inline]
    pub fn write_bool(&mut self, value: bool)
        requires
            old(self).position() < old(self).contents().len(),
        ensures
            final(self).contents() == old(self).contents().update(
                old(self).position() as int,
                if value {
                    1u8
                } else {
                    0u8
                },
            ),
            final(self).position() == old(self).position() + 1,
    {
        if value {
            self.write(1);
        } else {
            self.write(0);
        }
    }

    #[inline]
    pub fn write_u8(&mut self, value: u8)
        requires
            old(self).position() < old(self).contents().len(),
        ensures
            final(self).contents() == old(self).contents().update(
                old(self).position() as int,
                value,
            ),
            final(self).position() == old(self).position() + 1,
    {
        self.write(value);
    }

    #[inline]
    pub fn write_i8(&mut self, value: i8)
        requires
            old(self).position() < old(self).contents().len(),
        ensures
            final(self).contents() == old(self).contents().update(
                old(self).position() as int,
                value as u8,
            ),
            final(self).position() == old(self).position() + 1,
    {
        self.write(value as u8);
    }

    /// Writes a 16-bit value, most significant byte first.
    pub fn write_u16(&mut self, value: u16)
        requires
            old(self).position() + 2 <= old(self).contents().len(),
        ensures
            final(self).contents() == splice(
                old(self).contents(),
                old(self).position() as int,
                be_bytes_u16(value),
            ),
            final(self).position() == old(self).position() + 2,
    {
        let ghost before = self.inner@;
        let ghost c = self.cursor as int;
        self.ensure_capacity(2);
        self.write_unchecked((value >> 8u16) as u8);
        self.write_unchecked(value as u8);
        assert(self.inner@ =~= splice(before, c, be_bytes_u16(value)));
    }

    /// Writes a signed 16-bit value, most significant byte first.
    #[inline]
    pub fn write_i16(&mut self, value: i16)
        requires
            old(self).position() + 2 <= old(self).contents().len(),
        ensures
            final(self).contents() == splice(
                old(self).contents(),
                old(self).position() as int,
                be_bytes_u16(value as u16),
            ),
            final(self).position() == old(self).position() + 2,
    {
        self.write_u16(value as u16);
    }

    /// Writes a 32-bit value, most significant byte first.
    pub fn write_i32(&mut self, value: i32)
        requires
            old(self).position() + 4 <= old(self).contents().len(),
        ensures
            final(self).contents() == splice(
                old(self).contents(),
                old(self).position() as int,
                be_bytes_i32(value),
            ),
            final(self).position() == old(self).position() + 4,
    {
        let ghost before = self.inner@;
        let ghost c = self.cursor as int;
        self.ensure_capacity(4);
        self.write_unchecked((value >> 24i32) as u8);
        self.write_unchecked((value >> 16i32) as u8);
        self.write_unchecked((value >> 8i32) as u8);
        self.write_unchecked(value as u8);
        assert(self.inner@ =~= splice(before, c, be_bytes_i32(value)));
    }

    /// Writes a 64-bit value, most significant byte first.
    pub fn write_i64(&mut self, value: i64)
        requires
            old(self).position() + 8 <= old(self).contents().len(),
        ensures
            final(self).contents() == splice(
                old(self).contents(),
                old(self).position() as int,
                be_bytes_i64(value),
            ),
            final(self).position() == old(self).position() + 8,
    {
        let ghost before = self.inner@;
        let ghost c = self.cursor as int;
        self.ensure_capacity(8);
        self.write_unchecked((value >> 56i64) as u8);
        self.write_unchecked((value >> 48i64) as u8);
        self.write_unchecked((value >> 40i64) as u8);
        self.write_unchecked((value >> 32i64) as u8);
        self.write_unchecked((value >> 24i64) as u8);
        self.write_unchecked((value >> 16i64) as u8);
        self.write_unchecked((value >> 8i64) as u8);
        self.write_unchecked(value as u8);
        assert(self.inner@ =~= splice(before, c, be_bytes_i64(value)));
    }

    /// The number of bytes the variable-length encoding of `value` takes (five for negative
    /// values).
    pub fn varint_size(value: i32) -> (n: usize)
        ensures
            value >= 0 ==> n == varint_bytes(value as nat).len(),
            value < 0 ==> n == 5,
            1 <= n <= 5,
    {
        proof {
            if value >= 0 {
                lemma_varint_bytes_len(value as nat);
                lemma_pow128_small();
                let l = varint_bytes(value as nat).len();
                if value < 128 {
                } else if value < 16384 {
                    lemma_varint_bytes_len_bound(value as nat, 2);
                } else if value < 2097152 {
                    lemma_varint_bytes_len_bound(value as nat, 3);
                    if l <= 2 {
                        lemma_pow128_monotone(l, 2);
                    }
                } else if value < 268435456 {
                    lemma_varint_bytes_len_bound(value as nat, 4);
                    if l <= 3 {
                        lemma_pow128_monotone(l, 3);
                    }
                } else {
                    lemma_varint_bytes_len_bound(value as nat, 5);
                    if l <= 4 {
                        lemma_pow128_monotone(l, 4);
                    }
                }
            }
        }
        if 0 <= value && value <= 127 {
            1
        } else if 128 <= value && value <= 16383 {
            2
        } else if 16384 <= value && value <= 2097151 {
            3
        } else if 2097152 <= value && value <= 268435455 {
            4
        } else {
            5
        }
    }

    /// Writes the variable-length encoding of `value`, its bits read as unsigned (so a negative
    /// value takes five bytes), from the cursor on and moves the cursor past it.
    pub fn write_varint(&mut self, value: i32)
        requires
            old(self).position() + varint_bytes(unsigned_bits(value)).len() <= old(self).contents().len(),
        ensures
            final(self).contents() == splice(
                old(self).contents(),
                old(self).position() as int,
                varint_bytes(unsigned_bits(value)),
            ),
            final(self).position() == old(self).position() + varint_bytes(unsigned_bits(value)).len(),
    {
        let ghost before = self.inner@;
        let ghost c = self.cursor as int;
        let ghost total = varint_bytes(unsigned_bits(value));
        let ghost old_value = value;
        if value == 0 {
            self.write(0);
            assert(self.inner@ =~= splice(before, c, total));
            return ;
        }
        let mut value: u32 = if value >= 0 {
            value as u32
        } else {
            (value as i64 + 0x1_0000_0000i64) as u32
        };
        assert(value as nat == unsigned_bits(old_value));
        let ghost mut done: Seq<u8> = seq![];
        while value != 0
            invariant
                value == 0 ==> done == total,
                value > 0 ==> done + varint_bytes(value as nat) == total,
                0 <= c,
                c + total.len() <= before.len(),
                self.inner@ == splice(before, c, done),
                self.cursor == c + done.len(),
            decreases value,
        {
            proof {
                lemma_varint_bytes_len(value as nat);
            }
            let mut next_byte: u8 = (value & 0x7F) as u8;
            let ghost v = value;
            value >>= 7u32;
            proof {
                assert(next_byte == v % 128 && value == v / 128) by (bit_vector)
                    requires
                        next_byte == (v & 0x7F) as u8,
                        value == v >> 7u32,
                ;
            }
            if value != 0 {
                next_byte |= 0x80;
                proof {
                    assert(next_byte == v % 128 + 128) by (bit_vector)
                        requires
                            next_byte == ((v & 0x7F) as u8) | 0x80u8,
                    ;
                }
            }
            proof {
                if value == 0 {
                    assert(varint_bytes(v as nat) == seq![next_byte]);
                } else {
                    assert(varint_bytes(v as nat) == seq![next_byte] + varint_bytes(value as nat));
                    assert(done + seq![next_byte] + varint_bytes(value as nat) == total);
                }
                lemma_splice_push(before, c, done, next_byte);
                assert(done.push(next_byte) =~= done + seq![next_byte]);
            }
            self.write(next_byte);
            proof {
                done = done.push(next_byte);
            }
        }
        assert(self.inner@ == splice(before, c, total));
    }

    /// Reads a variable-length value (at most five bytes) from the cursor on and moves the
    /// cursor past it. Bits past the thirty-second are dropped.
    pub fn read_varint(&mut self) -> (v: i32)
        requires
            old(self).position() <= old(self).contents().len(),
            varint_len(old(self).contents().skip(old(self).position() as int)) matches Some(n)
                && n <= 5,
        ensures
            varint_len(old(self).contents().skip(old(self).position() as int)) matches Some(n) && {
                &&& v == varint_value(old(self).contents().skip(old(self).position() as int), n)
                    as i32
                &&& final(self).position() == old(self).position() + n
            },
            final(self).contents() == old(self).contents(),
    {
        let ghost orig = self.inner@;
        let ghost tail = self.inner@.skip(self.cursor as int);
        let ghost n = varint_len(tail).unwrap();
        let ghost c = self.cursor as int;
        proof {
            lemma_varint_len_end(tail);
            lemma_pow128_small();
        }
        let mut next: u8 = self.read();
        let mut result: i32 = (next & 0x7F) as i32;
        let mut num_read: i32 = 1;
        proof {
            assert(tail[0] == next);
            lemma_varint_value_extend(tail, 0);
            assert(varint_value(tail, 0) == 0);
            assert(pow128(0) == 1);
            assert(result == next % 128) by (bit_vector)
                requires result == (next & 0x7F) as i32;
            assert(tail.len() > 0);
            assert(varint_value(tail.drop_first(), 0) == 0);
            assert(varint_value(tail, 1) == (tail[0] % 128) as nat + 128 * varint_value(
                tail.drop_first(),
                0,
            ));
            assert(varint_value(tail, 1) == (next % 128) as nat);
            assert(result == varint_value(tail, 1));
        }
        while next & 0x80 != 0
            invariant
                varint_len(tail) == Some(n),
                1 <= n <= 5,
                n <= tail.len(),
                tail[n - 1] < 128,
                forall|k: int| 0 <= k < n - 1 ==> tail[k] >= 128,
                self.inner@ == orig,
                0 <= c,
                tail == orig.skip(c),
                c <= self.inner@.len(),
                c + tail.len() == self.inner@.len(),
                1 <= num_read <= n,
                self.cursor == c + num_read,
                next == tail[num_read - 1],
                num_read <= 4 ==> result == varint_value(tail, num_read as nat),
                result == varint_value(tail, num_read as nat) as i32,
                varint_value(tail, num_read as nat) < pow128(num_read as nat),
                pow128(1) == 0x80,
                pow128(2) == 0x4000,
                pow128(3) == 0x20_0000,
                pow128(4) == 0x1000_0000,
                pow128(5) == 0x8_0000_0000,
            decreases n - num_read,
        {
            proof {
                assert(next >= 128 <==> next & 0x80 != 0) by (bit_vector);
                assert(num_read < n);
                assert(orig.skip(c)[num_read as int] == orig[c + num_read]);
                assert(tail[num_read as int] == self.inner@[self.cursor as int]);
            }
            next = self.read();
            let ghost prev = result;
            let ghost k = num_read as nat;
            proof {
                lemma_varint_value_extend(tail, k);
                lemma_varint_value_extend(tail, k);
            }
            let digit: i32 = (next & 0x7F) as i32;
            result |= digit << (7 * num_read);
            proof {
                assert(digit == next % 128) by (bit_vector)
                    requires digit == (next & 0x7F) as i32;
                if k == 1 {
                    assert(result == prev + digit * 0x80) by (bit_vector)
                        requires 0 <= prev < 0x80, 0 <= digit < 0x80, result == prev | (digit << 7i32);
                } else if k == 2 {
                    assert(result == prev + digit * 0x4000) by (bit_vector)
                        requires 0 <= prev < 0x4000, 0 <= digit < 0x80, result == prev | (digit << 14i32);
                } else if k == 3 {
                    assert(result == prev + digit * 0x20_0000) by (bit_vector)
                        requires 0 <= prev < 0x20_0000, 0 <= digit < 0x80, result == prev | (digit << 21i32);
                } else {
                    assert(result == (prev + digit * 0x1000_0000) as i32) by (bit_vector)
                        requires 0 <= prev < 0x1000_0000, 0 <= digit < 0x80, result == prev | (digit << 28i32);
                }
            }
            num_read += 1;
        }
        proof {
            assert(next < 128) by (bit_vector)
                requires next & 0x80 == 0;
            if num_read < n {
                assert(tail[num_read - 1] >= 128);
            }
        }
        result
    }

    /// Copies the bytes after the cursor into all of `dest` and moves the cursor past them.
    pub fn read_blob(&mut self, dest: &mut Vec<u8>)
        requires
            old(self).position() + old(dest)@.len() <= old(self).contents().len(),
        ensures
            final(dest)@ == old(self).ahead(old(dest)@.len() as int),
            final(self).contents() == old(self).contents(),
            final(self).position() == old(self).position() + old(dest)@.len(),
    {
        let len = dest.len();
        proof {
            vstd::std_specs::vec::axiom_spec_len(&self.inner);
        }
        let mut i: usize = 0;
        while i < len
            invariant
                self.inner@.len() <= usize::MAX,
                len == dest@.len(),
                len == old(dest)@.len(),
                self.cursor + len <= self.inner@.len(),
                self.inner@ == old(self).contents(),
                self.cursor == old(self).position(),
                0 <= i <= len,
                forall|j: int| 0 <= j < i ==> dest@[j] == self.inner@[self.cursor + j],
            decreases len - i,
        {
            dest.set(i, self.inner[self.cursor + i]);
            i += 1;
        }
        self.cursor += len;
        assert(dest@ =~= old(self).ahead(len as int));
    }

    /// Reads `len` bytes from the cursor on.
    pub fn read_byte_array(&mut self, len: usize) -> (bytes: Vec<u8>)
        requires
            old(self).position() + len <= old(self).contents().len(),
        ensures
            bytes@ == old(self).ahead(len as int),
            final(self).contents() == old(self).contents(),
            final(self).position() == old(self).position() + len,
    {
        if len == 0 {
            assert(old(self).ahead(0) =~= Seq::<u8>::empty());
            Vec::new()
        } else {
            let mut result: Vec<u8> = vec![0u8; len];
            self.read_blob(&mut result);
            result
        }
    }

    /// Reads a string: a variable-length byte count followed by that many bytes of UTF-8.
    /// Bytes that are not valid UTF-8 give the empty string.
    pub fn read_string(&mut self) -> (text: String)
        requires
            old(self).position() <= old(self).contents().len(),
            varint_len(old(self).contents().skip(old(self).position() as int)) matches Some(n) && {
                let count = varint_value(old(self).contents().skip(old(self).position() as int), n)
                    as i32;
                &&& n <= 5
                &&& count >= 0
                &&& old(self).position() + n + count <= old(self).contents().len()
            },
        ensures
            varint_len(old(self).contents().skip(old(self).position() as int)) matches Some(n) && {
                let count = varint_value(old(self).contents().skip(old(self).position() as int), n)
                    as i32;
                let start = old(self).position() + n as int;
                &&& text@ == text_of(old(self).contents().subrange(start, start + count as int))
                &&& final(self).position() == start + count
            },
            final(self).contents() == old(self).contents(),
    {
        let len = self.read_varint();
        let bytes = self.read_byte_array(len as usize);
        match str_from_utf8(bytes.as_slice()) {
            Some(text) => text.to_owned(),
            None => String::new(),
        }
    }

    /// Writes `value` as a variable-length byte count followed by its UTF-8 bytes.
    pub fn write_string(&mut self, value: &String)
        requires
            encode_utf8(value@).len() <= i32::MAX,
            old(self).position() + varint_bytes(encode_utf8(value@).len()).len() + encode_utf8(
                value@,
            ).len() <= old(self).contents().len(),
        ensures
            final(self).contents() == splice(
                old(self).contents(),
                old(self).position() as int,
                varint_bytes(encode_utf8(value@).len()) + encode_utf8(value@),
            ),
            final(self).position() == old(self).position() + varint_bytes(
                encode_utf8(value@).len(),
            ).len() + encode_utf8(value@).len(),
    {
        let ghost before = self.inner@;
        let ghost c = self.cursor as int;
        let bytes = value.as_str().as_bytes();
        self.write_varint(bytes.len() as i32);
        self.write_bytes(bytes);
        proof {
            let h = varint_bytes(bytes@.len());
            let e = encode_utf8(value@);
            assert(splice(splice(before, c, h), c + h.len(), e) =~= splice(before, c, h + e));
        }
    }

    /// Writes the bytes of `value` from the cursor on.
    pub fn write_byte_array(&mut self, value: Vec<u8>)
        requires
            old(self).position() + value@.len() <= old(self).contents().len(),
        ensures
            final(self).contents() == splice(
                old(self).contents(),
                old(self).position() as int,
                value@,
            ),
            final(self).position() == old(self).position() + value@.len(),
    {
        self.write_bytes(value.as_slice());
    }

    pub fn inner_mut(&mut self) -> (r: &mut Vec<u8>)
        ensures
            r@ == old(self).contents(),
            final(self).contents() == final(r)@,
            final(self).position() == old(self).position(),
    {
        &mut self.inner
    }
}

} // verus!

verus! {

proof fn lemma_splice_window(s: Seq<u8>, p: int, w: Seq<u8>)
    requires
        0 <= p,
        p + w.len() <= s.len(),
    ensures
        splice(s, p, w).subrange(p, p + w.len()) == w,
        splice(s, p, w).skip(p) == w + s.skip(p + w.len()),
        splice(s, p, w).len() == s.len(),
{
    assert(splice(s, p, w).subrange(p, p + w.len()) =~= w);
    assert(splice(s, p, w).skip(p) =~= w + s.skip(p + w.len()));
}

/// Reading two bytes back where `write_u16` wrote a value gives that value.
pub proof fn law_u16_roundtrip(s: Seq<u8>, p: int, v: u16)
    requires
        0 <= p,
        p + 2 <= s.len(),
    ensures
        be_uint(splice(s, p, be_bytes_u16(v)).subrange(p, p + 2)) == v,
{
    lemma_splice_window(s, p, be_bytes_u16(v));
    let b0 = (v >> 8u16) as u8;
    let b1 = v as u8;
    lemma_be_uint_2(b0, b1);
    assert(b0 as nat * 256 + b1 as nat == v) by (bit_vector)
        requires
            b0 == (v >> 8u16) as u8,
            b1 == v as u8,
    ;
}

/// Reading four bytes back where `write_i32` wrote a value gives that value.
pub proof fn law_i32_roundtrip(s: Seq<u8>, p: int, v: i32)
    requires
        0 <= p,
        p + 4 <= s.len(),
    ensures
        be_uint(splice(s, p, be_bytes_i32(v)).subrange(p, p + 4)) as i32 == v,
{
    lemma_splice_window(s, p, be_bytes_i32(v));
    let b0 = (v >> 24i32) as u8;
    let b1 = (v >> 16i32) as u8;
    let b2 = (v >> 8i32) as u8;
    let b3 = v as u8;
    lemma_be_uint_4(b0, b1, b2, b3);
    assert((((b0 as nat * 256 + b1 as nat) * 256 + b2 as nat) * 256 + b3 as nat) as i32 == v)
        by (bit_vector)
        requires
            b0 == (v >> 24i32) as u8,
            b1 == (v >> 16i32) as u8,
            b2 == (v >> 8i32) as u8,
            b3 == v as u8,
    ;
}

/// Reading eight bytes back where `write_i64` wrote a value gives that value.
pub proof fn law_i64_roundtrip(s: Seq<u8>, p: int, v: i64)
    requires
        0 <= p,
        p + 8 <= s.len(),
    ensures
        be_uint(splice(s, p, be_bytes_i64(v)).subrange(p, p + 8)) as i64 == v,
{
    lemma_splice_window(s, p, be_bytes_i64(v));
    let b0 = (v >> 56i64) as u8;
    let b1 = (v >> 48i64) as u8;
    let b2 = (v >> 40i64) as u8;
    let b3 = (v >> 32i64) as u8;
    let b4 = (v >> 24i64) as u8;
    let b5 = (v >> 16i64) as u8;
    let b6 = (v >> 8i64) as u8;
    let b7 = v as u8;
    lemma_be_uint_4(b0, b1, b2, b3);
    lemma_be_uint_8(b0, b1, b2, b3, b4, b5, b6, b7);
    let hi: u64 = ((((b0 as u64) * 256 + b1 as u64) * 256 + b2 as u64) * 256 + b3 as u64) as u64;
    assert(hi < 0x1_0000_0000) by (nonlinear_arith)
        requires
            hi == ((((b0 as u64) * 256 + b1 as u64) * 256 + b2 as u64) * 256 + b3 as u64),
            b0 < 256,
            b1 < 256,
            b2 < 256,
            b3 < 256,
    ;
    assert(((((hi as nat * 256 + b4 as nat) * 256 + b5 as nat) * 256 + b6 as nat) * 256
        + b7 as nat) as i64 == v) by (bit_vector)
        requires
            hi == ((((b0 as u64) * 256 + b1 as u64) * 256 + b2 as u64) * 256 + b3 as u64),
            hi < 0x1_0000_0000,
            b0 == (v >> 56i64) as u8,
            b1 == (v >> 48i64) as u8,
            b2 == (v >> 40i64) as u8,
            b3 == (v >> 32i64) as u8,
            b4 == (v >> 24i64) as u8,
            b5 == (v >> 16i64) as u8,
            b6 == (v >> 8i64) as u8,
            b7 == v as u8,
    ;
}

/// Reading a variable-length value back where `write_varint` wrote a non-negative value gives
/// that value, in at most five bytes.
pub proof fn law_varint_roundtrip(s: Seq<u8>, p: int, v: i32)
    requires
        v >= 0,
        0 <= p,
        p + varint_bytes(v as nat).len() <= s.len(),
    ensures
        varint_len(splice(s, p, varint_bytes(v as nat)).skip(p)) == Some(
            varint_bytes(v as nat).len(),
        ),
        varint_bytes(v as nat).len() <= 5,
        varint_value(splice(s, p, varint_bytes(v as nat)).skip(p), varint_bytes(v as nat).len())
            as i32 == v,
{
    let w = varint_bytes(v as nat);
    lemma_splice_window(s, p, w);
    lemma_varint_roundtrip(v as nat, s.skip(p + w.len()));
    lemma_pow128_small();
    lemma_varint_bytes_len_bound(v as nat, 5);
}

/// Reading a string back where `write_string` wrote one gives the same string.
pub proof fn law_string_roundtrip(s: Seq<u8>, p: int, text: Seq<char>)
    requires
        0 <= p,
        encode_utf8(text).len() <= i32::MAX,
        p + varint_bytes(encode_utf8(text).len()).len() + encode_utf8(text).len() <= s.len(),
    ensures
        ({
            let bytes = encode_utf8(text);
            let header = varint_bytes(bytes.len());
            let after = splice(s, p, header + bytes);
            &&& varint_len(after.skip(p)) == Some(header.len())
            &&& header.len() <= 5
            &&& varint_value(after.skip(p), header.len()) as i32 == bytes.len()
            &&& text_of(after.subrange(p + header.len(), p + header.len() + bytes.len())) == text
        }),
{
    let bytes = encode_utf8(text);
    let header = varint_bytes(bytes.len());
    let after = splice(s, p, header + bytes);
    lemma_splice_window(s, p, header + bytes);
    lemma_varint_roundtrip(bytes.len(), bytes + s.skip(p + header.len() + bytes.len()));
    assert(after.skip(p) =~= header + (bytes + s.skip(p + header.len() + bytes.len())));
    lemma_pow128_small();
    lemma_varint_bytes_len_bound(bytes.len(), 5);
    assert(after.subrange(p + header.len(), p + header.len() + bytes.len()) =~= bytes);
    vstd::utf8::encode_utf8_valid_utf8(text);
    vstd::utf8::encode_utf8_decode_utf8(text);
}

} // verus!
