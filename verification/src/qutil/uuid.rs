use vstd::prelude::*;
use vstd::string::{StrSliceExecFns, StringExecFns, StringSliceAdditionalSpecFns};
use vstd::utf8::encode_utf8;
use crate::util::ioutil::{be_uint, lemma_be_uint_push};

verus! {

/// Clears the version and variant bits of a value.
pub const VERSION_VARIANT_MASK: u128 = 0xFFFFFFFF_FFFF_0FFF_3FFF_FFFFFFFFFFFFu128;
/// The version bits of version 4 and the variant bits of variant 1.
pub const VERSION_4_VARIANT_1: u128 = 0x00000000_0000_4000_8000_000000000000u128;

/// `value` with the version and variant of a random UUID.
pub open spec fn with_version(value: u128) -> u128 {
    (value & VERSION_VARIANT_MASK) | VERSION_4_VARIANT_1
}

/// The value of a hexadecimal digit.
pub open spec fn hex_digit(c: char) -> Option<nat> {
    if '0' <= c <= '9' {
        Some((c as nat - '0' as nat) as nat)
    } else if 'a' <= c <= 'f' {
        Some((c as nat - 'a' as nat + 10) as nat)
    } else if 'A' <= c <= 'F' {
        Some((c as nat - 'A' as nat + 10) as nat)
    } else {
        None
    }
}

/// Whether every character of `cs` is a hexadecimal digit.
pub open spec fn all_hex(cs: Seq<char>) -> bool {
    forall|i: int| 0 <= i < cs.len() ==> hex_digit(cs[i]) is Some
}

/// The value of a run of hexadecimal digits, most significant first.
pub open spec fn hex_value(cs: Seq<char>) -> nat
    decreases cs.len(),
{
    if cs.len() == 0 {
        0
    } else {
        hex_value(cs.drop_last()) * 16 + hex_digit(cs.last()).unwrap_or(0)
    }
}

/// The digits that a hexadecimal number written as `raw` has: all of it, or all but a
/// leading `+`; `None` when there are none.
pub open spec fn hex_digits(raw: Seq<char>) -> Option<Seq<char>> {
    if raw.len() == 0 {
        None
    } else if raw[0] == '+' {
        if raw.len() == 1 {
            None
        } else {
            Some(raw.drop_first())
        }
    } else {
        Some(raw)
    }
}

/// The characters of `s` other than dashes.
pub open spec fn without_dashes(s: Seq<char>) -> Seq<char> {
    s.filter(|c: char| c != '-')
}

/// What parsing `s` as a UUID gives: the value written in it, or the error message.
pub open spec fn parse_uuid(s: Seq<char>) -> Result<nat, Seq<char>> {
    let raw = without_dashes(s);
    if encode_utf8(raw).len() != 32 {
        Err("Expected condensed string to have length 32."@)
    } else {
        match hex_digits(raw) {
            Some(d) => if all_hex(d) {
                Ok(hex_value(d))
            } else {
                Err("Invalid UUID string."@)
            },
            None => Err("Invalid UUID string."@),
        }
    }
}

/// The lowercase hexadecimal digit for `d`.
pub open spec fn hex_char(d: nat) -> char {
    "0123456789abcdef"@[d as int]
}

/// The `k`th of the 32 hexadecimal digits of `v`, most significant first.
pub open spec fn nibble(v: u128, k: int) -> nat {
    ((v >> ((4 * (31 - k)) as u128)) & 0xFu128) as nat
}

/// Where the `k`th digit of a UUID stands in its text.
pub open spec fn text_pos(k: int) -> int {
    k + if k > 20 {
        4int
    } else if k > 16 {
        3int
    } else if k > 12 {
        2int
    } else if k > 8 {
        1int
    } else {
        0int
    }
}

/// The text of a UUID: its value as 32 lowercase hexadecimal digits, grouped 8-4-4-4-12 by
/// dashes.
pub open spec fn uuid_text(v: u128) -> Seq<char> {
    Seq::new(
        36,
        |i: int|
            if i == 8 || i == 13 || i == 18 || i == 23 {
                '-'
            } else {
                let k = if i < 8 {
                    i
                } else if i < 13 {
                    i - 1
                } else if i < 18 {
                    i - 2
                } else if i < 23 {
                    i - 3
                } else {
                    i - 4
                };
                hex_char(nibble(v, k))
            },
    )
}

/// A random 128-bit value from the thread's generator.
#[verifier::external_body]
pub(crate) fn random_u128() -> u128 {
    rand::Rng::gen::<u128>(&mut rand::thread_rng())
}

/// The characters of `s` other than dashes, as a string.
pub(crate) fn strip_dashes(s: &str) -> (r: String)
    ensures
        r@ == without_dashes(s@),
{
    let n = s.unicode_len();
    let mut r = String::new();
    let mut i: usize = 0;
    while i < n
        invariant
            n == s@.len(),
            0 <= i <= n,
            r@ == without_dashes(s@.take(i as int)),
        decreases n - i,
    {
        let c = s.get_char(i);
        proof {
            assert(s@.take(i + 1).drop_last() =~= s@.take(i as int));
            assert(s@.take(i + 1).last() == c);
        }
        if c != '-' {
            let one = s.substring_char(i, i + 1);
            let ghost before = r@;
            assert(one@ =~= seq![c]);
            r.append(one);
            assert(r@ =~= before.push(c));
        }
        proof {
            reveal_with_fuel(Seq::<_>::filter, 2);
            let t = s@.take(i + 1);
            assert(t.drop_last() =~= s@.take(i as int));
            assert(without_dashes(t) == if c != '-' {
                without_dashes(s@.take(i as int)).push(c)
            } else {
                without_dashes(s@.take(i as int))
            });
        }
        i += 1;
    }
    assert(s@.take(n as int) =~= s@);
    r
}

/// Parses hexadecimal digits (after an optional `+`) that fit 128 bits.
pub(crate) fn parse_hex_u128(raw: &str) -> (r: Option<u128>)
    requires
        encode_utf8(raw@).len() == 32,
    ensures
        match hex_digits(raw@) {
            Some(d) => if all_hex(d) {
                r == Some(hex_value(d) as u128) && hex_value(d) <= u128::MAX
            } else {
                r is None
            },
            None => r is None,
        },
{
    proof {
        lemma_chars_le_bytes(raw@);
    }
    let n = raw.unicode_len();
    if n == 0 {
        return None;
    }
    let mut start: usize = 0;
    if raw.get_char(0) == '+' {
        if n == 1 {
            return None;
        }
        start = 1;
    }
    let ghost d = hex_digits(raw@).unwrap();
    assert(d == raw@.skip(start as int));
    let mut value: u128 = 0;
    let mut i: usize = start;
    while i < n
        invariant
            n == raw@.len(),
            n <= 32,
            d == raw@.skip(start as int),
            hex_digits(raw@) == Some(d),
            0 <= start <= i <= n,
            all_hex(raw@.subrange(start as int, i as int)),
            value as nat == hex_value(raw@.subrange(start as int, i as int)),
            hex_value(raw@.subrange(start as int, i as int)) < pow16((i - start) as nat),
        decreases n - i,
    {
        let c = raw.get_char(i);
        let digit: u128 = if '0' <= c && c <= '9' {
            (c as u32 - '0' as u32) as u128
        } else if 'a' <= c && c <= 'f' {
            (c as u32 - 'a' as u32 + 10) as u128
        } else if 'A' <= c && c <= 'F' {
            (c as u32 - 'A' as u32 + 10) as u128
        } else {
            proof {
                assert(d[i - start] == c);
                assert(hex_digit(c) is None);
                assert(!all_hex(d));
            }
            return None;
        };
        let ghost prev = raw@.subrange(start as int, i as int);
        let ghost next = raw@.subrange(start as int, i + 1);
        proof {
            assert(next.drop_last() =~= prev);
            assert(next.last() == c);
            lemma_pow16_bound((i - start) as nat);
            assert(value * 16 + digit < pow16((i + 1 - start) as nat)) by (nonlinear_arith)
                requires
                    value < pow16((i - start) as nat),
                    digit < 16,
                    pow16((i + 1 - start) as nat) == 16 * pow16((i - start) as nat);
            assert forall|k: int| 0 <= k < next.len() implies hex_digit(next[k]) is Some by {
                if k < prev.len() {
                    assert(next[k] == prev[k]);
                }
            }
        }
        value = value * 16 + digit;
        i += 1;
    }
    assert(raw@.subrange(start as int, n as int) =~= d);
    Some(value)
}

/// `16` to the power `k`.
pub open spec fn pow16(k: nat) -> nat
    decreases k,
{
    if k == 0 {
        1
    } else {
        16 * pow16((k - 1) as nat)
    }
}

proof fn lemma_pow16_mono(a: nat, b: nat)
    requires
        a <= b,
    ensures
        pow16(a) <= pow16(b),
    decreases b,
{
    if a < b {
        lemma_pow16_mono(a, (b - 1) as nat);
    }
}

proof fn lemma_pow16_bound(k: nat)
    requires
        k < 32,
    ensures
        pow16(k + 1) == 16 * pow16(k),
        16 * pow16(k) <= u128::MAX + 1,
{
    lemma_pow16_mono(k, 31);
    assert(pow16(0) == 1);
    assert(pow16(1) == 16);
    assert(pow16(2) == 256);
    assert(pow16(3) == 4096);
    assert(pow16(4) == 65536);
    assert(pow16(5) == 1048576);
    assert(pow16(6) == 16777216);
    assert(pow16(7) == 268435456);
    assert(pow16(8) == 4294967296);
    assert(pow16(9) == 68719476736);
    assert(pow16(10) == 1099511627776);
    assert(pow16(11) == 17592186044416);
    assert(pow16(12) == 281474976710656);
    assert(pow16(13) == 4503599627370496);
    assert(pow16(14) == 72057594037927936);
    assert(pow16(15) == 1152921504606846976);
    assert(pow16(16) == 18446744073709551616);
    assert(pow16(17) == 295147905179352825856);
    assert(pow16(18) == 4722366482869645213696);
    assert(pow16(19) == 75557863725914323419136);
    assert(pow16(20) == 1208925819614629174706176);
    assert(pow16(21) == 19342813113834066795298816);
    assert(pow16(22) == 309485009821345068724781056);
    assert(pow16(23) == 4951760157141521099596496896);
    assert(pow16(24) == 79228162514264337593543950336);
    assert(pow16(25) == 1267650600228229401496703205376);
    assert(pow16(26) == 20282409603651670423947251286016);
    assert(pow16(27) == 324518553658426726783156020576256);
    assert(pow16(28) == 5192296858534827628530496329220096);
    assert(pow16(29) == 83076749736557242056487941267521536);
    assert(pow16(30) == 1329227995784915872903807060280344576);
    assert(pow16(31) == 21267647932558653966460912964485513216);
}

/// A string has at least as many bytes as characters.
proof fn lemma_chars_le_bytes(s: Seq<char>)
    ensures
        s.len() <= encode_utf8(s).len(),
    decreases s.len(),
{
    if s.len() > 0 {
        lemma_chars_le_bytes(s.drop_first());
    }
}

/// The text of a 128-bit value as a UUID.
pub(crate) fn format_uuid(v: u128) -> (s: String)
    ensures
        s@ == uuid_text(v),
{
    let digits = "0123456789abcdef";
    let dash = "-";
    proof {
        reveal_strlit("0123456789abcdef");
        reveal_strlit("-");
    }
    let mut s = String::new();
    let mut k: usize = 0;
    while k < 32
        invariant
            0 <= k <= 32,
            digits@ == "0123456789abcdef"@,
            digits@.len() == 16,
            dash@ == seq!['-'],
            s@ == uuid_text(v).take(text_pos(k as int)),
        decreases 32 - k,
    {
        if k == 8 || k == 12 || k == 16 || k == 20 {
            let ghost before = s@;
            s.append(dash);
            proof {
                assert(s@ =~= uuid_text(v).take(text_pos(k as int) + 1));
            }
        }
        let d = (v >> ((4 * (31 - k)) as u128)) & 0xFu128;
        assert(d < 16) by (bit_vector)
            requires d == (v >> ((4 * (31 - k)) as u128)) & 0xFu128;
        let text = digits.substring_char(d as usize, d as usize + 1);
        let ghost before = s@;
        s.append(text);
        proof {
            let p = if k == 8 || k == 12 || k == 16 || k == 20 {
                text_pos(k as int) + 1
            } else {
                text_pos(k as int)
            };
            assert(before =~= uuid_text(v).take(p));
            assert(text@ =~= seq![hex_char(d as nat)]);
            assert(uuid_text(v)[p] == hex_char(nibble(v, k as int)));
            assert(s@ =~= uuid_text(v).take(text_pos(k + 1)));
        }
        k += 1;
    }
    assert(uuid_text(v).take(36) =~= uuid_text(v));
    s
}

/// `256` to the power `k`.
pub open spec fn pow256(k: nat) -> nat
    decreases k,
{
    if k == 0 {
        1
    } else {
        256 * pow256((k - 1) as nat)
    }
}

/// A run of `k` bytes is worth less than `256^k`.
pub proof fn lemma_be_uint_bound(s: Seq<u8>)
    ensures
        be_uint(s) < pow256(s.len()),
    decreases s.len(),
{
    if s.len() > 0 {
        lemma_be_uint_bound(s.drop_last());
        assert(be_uint(s.drop_last()) * 256 + 255 < pow256(s.len())) by (nonlinear_arith)
            requires
                be_uint(s.drop_last()) < pow256((s.len() - 1) as nat),
                pow256(s.len()) == 256 * pow256((s.len() - 1) as nat);
    }
}

proof fn lemma_pow256_15()
    ensures
        pow256(15) == 0x1_00_0000_0000_0000_0000_0000_0000_0000nat,
        pow256(16) == 0x1_0000_0000_0000_0000_0000_0000_0000_0000nat,
{
    assert(pow256(0) == 1);
    assert(pow256(1) == 256);
    assert(pow256(2) == 65536);
    assert(pow256(3) == 16777216);
    assert(pow256(4) == 4294967296);
    assert(pow256(5) == 1099511627776);
    assert(pow256(6) == 281474976710656);
    assert(pow256(7) == 72057594037927936);
    assert(pow256(8) == 18446744073709551616);
    assert(pow256(9) == 4722366482869645213696);
    assert(pow256(10) == 1208925819614629174706176);
    assert(pow256(11) == 309485009821345068724781056);
    assert(pow256(12) == 79228162514264337593543950336);
    assert(pow256(13) == 20282409603651670423947251286016);
    assert(pow256(14) == 5192296858534827628530496329220096);
    assert(pow256(15) == 1329227995784915872903807060280344576);
    assert(pow256(16) == 340282366920938463463374607431768211456);
}

/// Reads the bytes of `bytes` as one big-endian value, each byte shifted in from below, with
/// `shift_last` telling whether the value is shifted once more after the last byte.
pub(crate) fn fold_bytes(bytes: &[u8], shift_last: bool) -> (r: u128)
    requires
        bytes@.len() == 16,
    ensures
        !shift_last ==> r == be_uint(bytes@),
        shift_last ==> r == (be_uint(bytes@) * 256) % 0x1_0000_0000_0000_0000_0000_0000_0000_0000nat,
{
    proof {
        lemma_pow256_15();
    }
    let mut inner: u128 = 0;
    let mut i: usize = 0;
    assert(bytes@.take(0) =~= Seq::<u8>::empty());
    while i < 15
        invariant
            bytes@.len() == 16,
            0 <= i <= 15,
            pow256(15) == 0x1_00_0000_0000_0000_0000_0000_0000_0000nat,
            inner == be_uint(bytes@.take(i as int)) * 256,
        decreases 15 - i,
    {
        let b = bytes[i];
        proof {
            lemma_be_uint_bound(bytes@.take(i as int));
            lemma_pow256_mono(i as nat, 14);
            assert(bytes@.take(i + 1) =~= bytes@.take(i as int).push(b));
            lemma_be_uint_push(bytes@.take(i as int), b);
        }
        let x = inner | (b as u128);
        assert(x == inner + b) by (bit_vector)
            requires x == inner | (b as u128), inner % 256 == 0;
        let y = x << 8u128;
        assert(y == x * 256) by (bit_vector)
            requires y == x << 8u128, x < 0x1_00_0000_0000_0000_0000_0000_0000_0000u128;
        inner = y;
        i += 1;
    }
    let last = bytes[15];
    proof {
        assert(bytes@ =~= bytes@.take(15).push(last));
        lemma_be_uint_push(bytes@.take(15), last);
        lemma_be_uint_bound(bytes@.take(15));
    }
    let x = inner | (last as u128);
    assert(x == inner + last) by (bit_vector)
        requires x == inner | (last as u128), inner % 256 == 0;
    if shift_last {
        let y = x << 8u128;
        assert(y == (x * 256) % 0x1_0000_0000_0000_0000_0000_0000_0000_0000int) by (bit_vector)
            requires y == x << 8u128;
        y
    } else {
        x
    }
}

proof fn lemma_pow256_mono(a: nat, b: nat)
    requires
        a <= b,
    ensures
        pow256(a) <= pow256(b),
    decreases b,
{
    if a < b {
        lemma_pow256_mono(a, (b - 1) as nat);
    }
}

/// A UUID of version 4, variant 1.
#[derive(Copy, Clone, PartialEq, Eq, Structural, PartialOrd, Ord, Hash, Debug)]
pub struct Uuid(u128);

impl Uuid {
    /// The 128-bit value.
    pub closed spec fn value(&self) -> u128 {
        self.0
    }

    /// Applies the version and variant of a random UUID.
    #[inline]
    fn correct_version(uuid: u128) -> (r: u128)
        ensures
            r == with_version(uuid),
    {
        (uuid & VERSION_VARIANT_MASK) | VERSION_4_VARIANT_1
    }

    /// A random UUID: 122 random bits with the version and variant set.
    pub fn random() -> (r: Self)
        ensures
            exists|x: u128| r.value() == with_version(x),
    {
        let x = random_u128();
        Uuid(Self::correct_version(x))
    }

    /// The UUID whose value is `bytes` read big-endian, with the version and variant set.
    pub fn from_bytes_be(bytes: &[u8]) -> (r: Self)
        requires
            bytes@.len() == 16,
        ensures
            r.value() == with_version(be_uint(bytes@) as u128),
    {
        Uuid(Self::correct_version(fold_bytes(bytes, false)))
    }

    /// The UUID whose value is `bytes` read little-endian, with the version and variant set.
    pub fn from_bytes_le(bytes: &[u8]) -> (r: Self)
        requires
            bytes@.len() == 16,
        ensures
            r.value() == with_version(be_uint(bytes@.reverse()) as u128),
    {
        let mut reversed: Vec<u8> = Vec::new();
        let mut i: usize = 0;
        while i < 16
            invariant
                bytes@.len() == 16,
                0 <= i <= 16,
                reversed@ =~= bytes@.reverse().take(i as int),
            decreases 16 - i,
        {
            reversed.push(bytes[15 - i]);
            i += 1;
        }
        assert(reversed@ =~= bytes@.reverse());
        Uuid(Self::correct_version(fold_bytes(reversed.as_slice(), false)))
    }

    /// The upper 64 bits of the value.
    pub fn most_significant_bits(&self) -> (r: u64)
        ensures
            r == (self.value() >> 64u128) as u64,
    {
        (self.0 >> 64u128) as u64
    }

    /// The lower 64 bits of the value.
    pub fn least_significant_bits(&self) -> (r: u64)
        ensures
            r == self.value() as u64,
    {
        self.0 as u64
    }

    /// The 128-bit value.
    pub fn as_u128(&self) -> (r: u128)
        ensures
            r == self.value(),
    {
        self.0
    }

    /// Parses a UUID written as 32 hexadecimal digits, dashes anywhere being ignored, and sets
    /// its version and variant.
    pub fn from_str(s: &str) -> (r: Result<Self, &'static str>)
        ensures
            match parse_uuid(s@) {
                Ok(n) => r matches Ok(u) && u.value() == with_version(n as u128),
                Err(m) => r matches Err(e) && e@ == m,
            },
    {
        let raw = strip_dashes(s);
        if raw.as_str().as_bytes().len() != 32 {
            return Err("Expected condensed string to have length 32.");
        }
        match parse_hex_u128(raw.as_str()) {
            Some(inner) => Ok(Uuid(Self::correct_version(inner))),
            None => Err("Invalid UUID string."),
        }
    }

    /// The UUID's text: 32 lowercase hexadecimal digits grouped 8-4-4-4-12 by dashes.
    pub fn to_string(&self) -> (s: String)
        ensures
            s@ == uuid_text(self.value()),
    {
        format_uuid(self.0)
    }
}

impl From<u128> for Uuid {
    fn from(inner: u128) -> (r: Self) {
        Uuid(inner)
    }
}

impl vstd::std_specs::convert::FromSpecImpl<u128> for Uuid {
    open spec fn obeys_from_spec() -> bool {
        true
    }

    closed spec fn from_spec(inner: u128) -> Self {
        Uuid(inner)
    }
}

/// The 32 digits of `v` without the dashes.
pub open spec fn uuid_digits(v: u128) -> Seq<char> {
    Seq::new(32, |k: int| hex_char(nibble(v, k)))
}

/// A sequence without dashes is left whole by taking them out.
proof fn lemma_no_dash_filter(t: Seq<char>)
    requires
        forall|i: int| 0 <= i < t.len() ==> t[i] != '-',
    ensures
        t.filter(|c: char| c != '-') == t,
    decreases t.len(),
{
    reveal(Seq::filter);
    if t.len() > 0 {
        lemma_no_dash_filter(t.drop_last());
        assert(t.drop_last().push(t.last()) =~= t);
    }
}

/// A dash alone is dropped whole.
proof fn lemma_dash_filter()
    ensures
        seq!['-'].filter(|c: char| c != '-') == Seq::<char>::empty(),
{
    reveal_with_fuel(Seq::filter, 2);
    assert(seq!['-'].drop_last() =~= Seq::<char>::empty());
}

/// The digit written for a value below 16 reads back as that value.
proof fn lemma_hex_char_digit(n: nat)
    requires
        n < 16,
    ensures
        hex_digit(hex_char(n)) == Some(n),
        hex_char(n) != '-',
        hex_char(n) != '+',
        '\0' <= hex_char(n) <= '\u{7f}',
{
    reveal_strlit("0123456789abcdef");
    assert("0123456789abcdef"@ =~= seq!['0', '1', '2', '3', '4', '5', '6', '7', '8', '9', 'a', 'b', 'c', 'd', 'e', 'f']);
}

/// Facts about shifting a 128-bit value by whole nibbles.
proof fn lemma_nibble_shifts(v: u128, s: u128)
    by (bit_vector)
    requires
        s <= 124,
    ensures
        (v >> s) & 0xFu128 <= 15,
        (v >> (s + 4) as u128) * 16 + ((v >> s) & 0xFu128) == v >> s,
        v >> 128u128 == 0,
        v >> 0u128 == v,
{
}

/// A nibble is below 16.
proof fn lemma_nibble_bound(v: u128, k: int)
    requires
        0 <= k < 32,
    ensures
        nibble(v, k) < 16,
{
    lemma_nibble_shifts(v, (4 * (31 - k)) as u128);
}

/// The digits of `v` read back as `v`, `m` at a time.
proof fn lemma_digits_value(v: u128, m: int)
    requires
        0 <= m <= 32,
    ensures
        hex_value(uuid_digits(v).take(m)) == (v >> (4 * (32 - m)) as u128),
    decreases m,
{
    let d = uuid_digits(v);
    lemma_nibble_shifts(v, 0);
    if m == 0 {
        assert(d.take(0).len() == 0);
    } else {
        lemma_digits_value(v, m - 1);
        assert(d.take(m).drop_last() =~= d.take(m - 1));
        lemma_nibble_bound(v, m - 1);
        lemma_hex_char_digit(nibble(v, m - 1));
        let s: u128 = (4 * (32 - m)) as u128;
        lemma_nibble_shifts(v, s);
        assert((s + 4) as u128 == (4 * (32 - (m - 1))) as u128);
        assert(nibble(v, m - 1) == ((v >> s) & 0xFu128) as nat);
    }
}

/// The text of a UUID without its dashes is its 32 digits.
proof fn lemma_text_digits(v: u128)
    ensures
        without_dashes(uuid_text(v)) == uuid_digits(v),
{
    let t = uuid_text(v);
    let d = uuid_digits(v);
    let dash = seq!['-'];
    let g0 = d.subrange(0, 8);
    let g1 = d.subrange(8, 12);
    let g2 = d.subrange(12, 16);
    let g3 = d.subrange(16, 20);
    let g4 = d.subrange(20, 32);
    assert(t =~= g0 + dash + g1 + dash + g2 + dash + g3 + dash + g4);
    assert forall|k: int| 0 <= k < 32 implies d[k] != '-' by {
        lemma_nibble_bound(v, k);
        lemma_hex_char_digit(nibble(v, k));
    }
    let p = |c: char| c != '-';
    lemma_no_dash_filter(g0);
    lemma_no_dash_filter(g1);
    lemma_no_dash_filter(g2);
    lemma_no_dash_filter(g3);
    lemma_no_dash_filter(g4);
    lemma_dash_filter();
    broadcast use Seq::filter_distributes_over_add;
    assert(t.filter(p) =~= g0 + g1 + g2 + g3 + g4);
    assert(g0 + g1 + g2 + g3 + g4 =~= d);
}

/// The text of a UUID parses back to its value.
pub proof fn law_text_parses_back(v: u128)
    ensures
        parse_uuid(uuid_text(v)) == Ok::<nat, Seq<char>>(v as nat),
{
    let d = uuid_digits(v);
    lemma_text_digits(v);
    assert forall|k: int| 0 <= k < 32 implies hex_digit(#[trigger] d[k]) is Some && '\0' <= d[k] <= '\u{7f}' by {
        lemma_nibble_bound(v, k);
        lemma_hex_char_digit(nibble(v, k));
    }
    vstd::utf8::is_ascii_chars_encode_utf8(d);
    lemma_nibble_bound(v, 0);
    lemma_hex_char_digit(nibble(v, 0));
    assert(hex_digits(d) == Some(d));
    lemma_digits_value(v, 32);
    assert(d.take(32) =~= d);
    lemma_nibble_shifts(v, 0);
}

/// Setting the version and variant twice is setting them once; so a UUID that has them reads
/// back from its text unchanged.
pub proof fn law_version_idempotent(v: u128)
    ensures
        with_version(with_version(v)) == with_version(v),
{
    assert(((((v & 0xFFFFFFFF_FFFF_0FFF_3FFF_FFFFFFFFFFFFu128) | 0x00000000_0000_4000_8000_000000000000u128)
        & 0xFFFFFFFF_FFFF_0FFF_3FFF_FFFFFFFFFFFFu128) | 0x00000000_0000_4000_8000_000000000000u128)
        == ((v & 0xFFFFFFFF_FFFF_0FFF_3FFF_FFFFFFFFFFFFu128) | 0x00000000_0000_4000_8000_000000000000u128))
        by (bit_vector);
}

} // verus!
