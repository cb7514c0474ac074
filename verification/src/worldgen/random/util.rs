use vstd::prelude::*;
use crate::qutil::math::unsigned_shr_i64;
use crate::util::ioutil::be_uint;
use vstd::utf8::encode_utf8;

verus! {

/// Java's `String.hashCode` over the characters of `s`: `h = 31 * h + c` with 32-bit wrapping.
pub open spec fn java_hash(s: Seq<char>) -> i32
    decreases s.len(),
{
    if s.len() == 0 {
        0
    } else {
        31i32.wrapping_mul(java_hash(s.drop_last())).wrapping_add(s.last() as i32)
    }
}

/// Hashes a string the way Java's `String.hashCode` does, one character at a time.
pub fn java_string_hash(str: &str) -> (h: i32)
    ensures
        h == java_hash(str@),
{
    let mut h = 0i32;
    for ch in it: str.chars()
        invariant
            it.seq() == str@,
            h == java_hash(str@.take(it.index() as int)),
    {
        proof {
            assert(str@.take(it.index() + 1).drop_last() =~= str@.take(it.index() as int));
        }
        h = 31i32.wrapping_mul(h).wrapping_add(ch as i32);
    }
    proof {
        assert(str@.take(str@.len() as int) =~= str@);
    }
    h
}

/// Converts a 64-bit seed to the two halves of a 128-bit seed.
pub fn i64_seed_to_u128_seed(long: i64) -> (r: (i64, i64))
    ensures
        r == (
            stafford_13(long ^ 7640891576956012809i64),
            stafford_13((long ^ 7640891576956012809i64).wrapping_add(-7046029254386353131i64)),
        ),
{
    let low = long ^ 7640891576956012809i64;
    let high = low.wrapping_add(-7046029254386353131i64);
    (mix_stafford_13(low), mix_stafford_13(high))
}

/// Logical right shift of the bits of a 64-bit value.
pub open spec fn ushr(v: i64, k: u64) -> i64 {
    ((v as u64) >> k) as i64
}

/// The Stafford variant 13 mixing function of 64-bit values.
pub open spec fn stafford_13(v: i64) -> i64 {
    let a = (v ^ ushr(v, 30)).wrapping_mul(-4658895280553007687i64);
    let b = (a ^ ushr(a, 27)).wrapping_mul(-7723592293110705685i64);
    b ^ ushr(b, 31)
}

/// Mixes the bits of a 64-bit value (Stafford variant 13).
pub fn mix_stafford_13(long: i64) -> (r: i64)
    ensures
        r == stafford_13(long),
{
    let mut long = long;
    long = (long ^ unsigned_shr_i64(long, 30)).wrapping_mul(-4658895280553007687i64);
    long = (long ^ unsigned_shr_i64(long, 27)).wrapping_mul(-7723592293110705685i64);
    long ^ unsigned_shr_i64(long, 31)
}

/// The seed derived from a block position.
pub open spec fn pos_seed(x: i32, y: i32, z: i32) -> i64 {
    let temp = (x as i64).wrapping_mul(3129871i64) ^ (z as i64).wrapping_mul(116129781i64) ^ (
    y as i64);
    temp.wrapping_mul(temp).wrapping_mul(42317861i64).wrapping_add(temp.wrapping_mul(11i64)) >> 16i64
}

/// Returns a positional random seed.
pub fn get_pos_seed(x: i32, y: i32, z: i32) -> (r: i64)
    ensures
        r == pos_seed(x, y, z),
{
    let temp = ((x as i64).wrapping_mul(3129871)) ^ ((z as i64).wrapping_mul(116129781)) ^ y as i64;
    temp.wrapping_mul(temp).wrapping_mul(42317861).wrapping_add(temp.wrapping_mul(11)) >> 16
}

/// The MD5 digest of a byte string.
pub uninterp spec fn md5_of(bytes: Seq<u8>) -> Seq<u8>;

/// `md5::Md5::digest` (md-5 crate): the 16-byte MD5 digest of `bytes`. The digest itself is
/// named, not stated; its length is the algorithm's output size.
#[verifier::external_body]
fn md5_digest(bytes: &[u8]) -> (d: Vec<u8>)
    ensures
        d@ == md5_of(bytes@),
        d@.len() == 16,
{
    <md5::Md5 as md5::Digest>::digest(bytes).to_vec()
}

/// Assembles a 64-bit value from eight bytes, most significant first.
pub fn build_long(bytes: &[u8]) -> (r: i64)
    requires
        bytes@.len() >= 8,
    ensures
        r == be_uint(bytes@.take(8)) as i64,
{
    let b0 = bytes[0];
    let b1 = bytes[1];
    let b2 = bytes[2];
    let b3 = bytes[3];
    let b4 = bytes[4];
    let b5 = bytes[5];
    let b6 = bytes[6];
    let b7 = bytes[7];
    let v = (b0 as i64) << 56i64 | (b1 as i64) << 48i64 | (b2 as i64) << 40i64 | (b3 as i64)
        << 32i64 | (b4 as i64) << 24i64 | (b5 as i64) << 16i64 | (b6 as i64) << 8i64 | (b7 as i64);
    proof {
        let hi: u64 = ((((b0 as u64) * 256 + b1 as u64) * 256 + b2 as u64) * 256 + b3 as u64) as u64;
        assert(hi < 0x1_0000_0000) by (nonlinear_arith)
            requires
                hi == ((((b0 as u64) * 256 + b1 as u64) * 256 + b2 as u64) * 256 + b3 as u64),
                b0 < 256,
                b1 < 256,
                b2 < 256,
                b3 < 256,
        ;
        assert(v == ((((hi as nat * 256 + b4 as nat) * 256 + b5 as nat) * 256 + b6 as nat) * 256
            + b7 as nat) as i64) by (bit_vector)
            requires
                hi == ((((b0 as u64) * 256 + b1 as u64) * 256 + b2 as u64) * 256 + b3 as u64),
                hi < 0x1_0000_0000,
                v == (b0 as i64) << 56i64 | (b1 as i64) << 48i64 | (b2 as i64) << 40i64 | (
                b3 as i64) << 32i64 | (b4 as i64) << 24i64 | (b5 as i64) << 16i64 | (b6 as i64)
                    << 8i64 | (b7 as i64),
        ;
        crate::util::ioutil::lemma_be_uint_4(b0, b1, b2, b3);
        crate::util::ioutil::lemma_be_uint_8(b0, b1, b2, b3, b4, b5, b6, b7);
        assert(bytes@.take(8) =~= seq![b0, b1, b2, b3, b4, b5, b6, b7]);
    }
    v
}

/// Returns the MD5 hash of the string as two 64-bit values: the first and the last eight bytes
/// of the digest, each most significant byte first.
pub fn hash_string_md5(s: &str) -> (r: (i64, i64))
    ensures
        r == (
            be_uint(md5_of(encode_utf8(s@)).take(8)) as i64,
            be_uint(md5_of(encode_utf8(s@)).skip(8).take(8)) as i64,
        ),
{
    let result = md5_digest(s.as_bytes());
    let (first, second) = result.as_slice().split_at(8);
    proof {
        assert(second@ =~= md5_of(encode_utf8(s@)).skip(8));
        assert(first@.take(8) =~= md5_of(encode_utf8(s@)).take(8));
    }
    (build_long(first), build_long(second))
}

} // verus!
