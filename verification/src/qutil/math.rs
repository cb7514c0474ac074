use vstd::prelude::*;

verus! {

/// Logical (unsigned) right shift of a 32-bit signed value.
pub fn unsigned_shr(lhs: i32, rhs: i32) -> (r: i32)
    requires
        0 <= rhs < 32,
    ensures
        r == ((lhs as u32) >> (rhs as u32)) as i32,
{
    ((lhs as u32) >> (rhs as u32)) as i32
}

/// Logical (unsigned) right shift of a 64-bit signed value.
pub fn unsigned_shr_i64(lhs: i64, rhs: i64) -> (r: i64)
    requires
        0 <= rhs < 64,
    ensures
        r == ((lhs as u64) >> (rhs as u64)) as i64,
{
    ((lhs as u64) >> (rhs as u64)) as i64
}

/// Performs a binary search over `[min, max)` for the first value at which `test` holds,
/// returning `max` when it holds nowhere. `test` must be monotone over the range: once it has
/// held at some value it holds at every larger one.
pub fn binary_search(min: i32, max: i32, test: impl Fn(i32) -> bool) -> (r: i32)
    requires
        i32::MIN <= max - min <= i32::MAX,
        forall|k: i32| min <= k < max ==> call_requires(test, (k,)),
        forall|a: i32, b: i32, x: bool, y: bool|
            min <= a <= b < max && call_ensures(test, (a,), x) && call_ensures(test, (b,), y) && x
                ==> y,
    ensures
        max <= min ==> r == min,
        min <= max ==> {
            &&& min <= r <= max
            &&& forall|k: i32, b: bool| min <= k < r && call_ensures(test, (k,), b) ==> !b
            &&& forall|k: i32, b: bool| r <= k < max && call_ensures(test, (k,), b) ==> b
        },
{
    let ghost lo = min;
    let mut min = min;
    let mut i = max - min;
    while i > 0
        invariant
            lo <= max ==> lo <= min && 0 <= i && min + i <= max,
            max < lo ==> min == lo && i < 0,
            forall|k: i32| lo <= k < max ==> call_requires(test, (k,)),
            forall|a: i32, b: i32, x: bool, y: bool|
                lo <= a <= b < max && call_ensures(test, (a,), x) && call_ensures(test, (b,), y)
                    && x ==> y,
            forall|k: i32, b: bool| lo <= k < min && call_ensures(test, (k,), b) ==> !b,
            forall|k: i32, b: bool| min + i <= k < max && call_ensures(test, (k,), b) ==> b,
        decreases i,
    {
        let j = i / 2;
        let k = min + j;
        if test(k) {
            i = j;
        } else {
            min = k + 1;
            i -= j + 1;
        }
    }
    min
}

/// The multiplier whose top six bits, after multiplying by a power of two, index the table of
/// logarithms.
pub const DE_BRUIJN_64: u64 = 0x07EDD5E59A4E28C2u64;

/// The table of logarithms indexed by the top six bits of `2^k * DE_BRUIJN_64`.
pub open spec fn log2_table() -> Seq<u64> {
    seq![
        63u64, 0, 58, 1, 59, 47, 53, 2, 60, 39, 48, 27, 54, 33, 42, 3, 61, 51, 37, 40, 49, 18, 28,
        20, 55, 30, 34, 11, 43, 14, 22, 4, 62, 57, 46, 52, 38, 26, 32, 41, 50, 36, 17, 19, 29, 10,
        13, 21, 56, 45, 25, 31, 35, 16, 9, 12, 44, 24, 15, 8, 23, 7, 6, 5,
    ]
}

/// The table index that a power of two selects.
pub open spec fn de_bruijn_index(p: u64) -> u64 {
    vstd::wrapping::u64_specs::wrapping_mul(p, DE_BRUIJN_64) >> 58u64
}

/// `x` with every bit below its highest set bit set as well.
pub open spec fn smear(x: u64) -> u64 {
    let a = x | (x >> 1u64);
    let b = a | (a >> 2u64);
    let c = b | (b >> 4u64);
    let d = c | (c >> 8u64);
    let e = d | (d >> 16u64);
    e | (e >> 32u64)
}

/// The position of the highest set bit of `v` (zero for zero).
pub open spec fn highest_bit(v: u64) -> u64
    decreases v,
{
    if v <= 1 {
        0
    } else {
        proof {
            assert(v > 1 ==> (v >> 1u64) < v) by (bit_vector);
        }
        (1 + highest_bit(v >> 1u64)) as u64
    }
}

proof fn lemma_highest_bit(v: u64)
    requires
        v != 0,
    ensures
        highest_bit(v) < 64,
        v >> highest_bit(v) == 1,
    decreases v,
{
    if v == 1 {
        assert(1u64 >> 0u64 == 1) by (bit_vector);
    } else {
        assert(v > 1 ==> (v >> 1u64) < v && (v >> 1u64) != 0) by (bit_vector);
        let w = v >> 1u64;
        lemma_highest_bit(w);
        let j = highest_bit(w);
        assert(j < 64 && w == v >> 1u64 && (w >> j) == 1 ==> j < 63 && (v >> ((j + 1) as u64)) == 1)
            by (bit_vector);
    }
}

#[verifier::spinoff_prover]
#[verifier::rlimit(40)]
proof fn lemma_log2_table_0_4(k: u64)
    requires
        0 <= k < 4,
    ensures
        log2_table()[de_bruijn_index(1u64 << k) as int] == k,
{
    vstd::arithmetic::power2::lemma2_to64();
    vstd::arithmetic::power2::lemma2_to64_rest();
    vstd::bits::lemma_u64_pow2_no_overflow(k as nat);
    vstd::bits::lemma_u64_shl_is_mul(1u64, k);
    let m = vstd::wrapping::u64_specs::wrapping_mul(1u64 << k, DE_BRUIJN_64);
    vstd::bits::lemma_u64_shr_is_div(m, 58u64);
    if k == 0 {
        assert(m == 571347909858961602);
        assert(m as nat / 288230376151711744 == 1);
    } else if k == 1 {
        assert(m == 1142695819717923204);
        assert(m as nat / 288230376151711744 == 3);
    } else if k == 2 {
        assert(m == 2285391639435846408);
        assert(m as nat / 288230376151711744 == 7);
    } else if k == 3 {
        assert(m == 4570783278871692816);
        assert(m as nat / 288230376151711744 == 15);
    }
}

#[verifier::spinoff_prover]
#[verifier::rlimit(40)]
proof fn lemma_log2_table_4_8(k: u64)
    requires
        4 <= k < 8,
    ensures
        log2_table()[de_bruijn_index(1u64 << k) as int] == k,
{
    vstd::arithmetic::power2::lemma2_to64();
    vstd::arithmetic::power2::lemma2_to64_rest();
    vstd::bits::lemma_u64_pow2_no_overflow(k as nat);
    vstd::bits::lemma_u64_shl_is_mul(1u64, k);
    let m = vstd::wrapping::u64_specs::wrapping_mul(1u64 << k, DE_BRUIJN_64);
    vstd::bits::lemma_u64_shr_is_div(m, 58u64);
    if k == 4 {
        assert(m == 9141566557743385632);
        assert(m as nat / 288230376151711744 == 31);
    } else if k == 5 {
        assert(m == 18283133115486771264);
        assert(m as nat / 288230376151711744 == 63);
    } else if k == 6 {
        assert(m == 18119522157263990912);
        assert(m as nat / 288230376151711744 == 62);
    } else if k == 7 {
        assert(m == 17792300240818430208);
        assert(m as nat / 288230376151711744 == 61);
    }
}

#[verifier::spinoff_prover]
#[verifier::rlimit(40)]
proof fn lemma_log2_table_8_12(k: u64)
    requires
        8 <= k < 12,
    ensures
        log2_table()[de_bruijn_index(1u64 << k) as int] == k,
{
    vstd::arithmetic::power2::lemma2_to64();
    vstd::arithmetic::power2::lemma2_to64_rest();
    vstd::bits::lemma_u64_pow2_no_overflow(k as nat);
    vstd::bits::lemma_u64_shl_is_mul(1u64, k);
    let m = vstd::wrapping::u64_specs::wrapping_mul(1u64 << k, DE_BRUIJN_64);
    vstd::bits::lemma_u64_shr_is_div(m, 58u64);
    if k == 8 {
        assert(m == 17137856407927308800);
        assert(m as nat / 288230376151711744 == 59);
    } else if k == 9 {
        assert(m == 15828968742145065984);
        assert(m as nat / 288230376151711744 == 54);
    } else if k == 10 {
        assert(m == 13211193410580580352);
        assert(m as nat / 288230376151711744 == 45);
    } else if k == 11 {
        assert(m == 7975642747451609088);
        assert(m as nat / 288230376151711744 == 27);
    }
}

#[verifier::spinoff_prover]
#[verifier::rlimit(40)]
proof fn lemma_log2_table_12_16(k: u64)
    requires
        12 <= k < 16,
    ensures
        log2_table()[de_bruijn_index(1u64 << k) as int] == k,
{
    vstd::arithmetic::power2::lemma2_to64();
    vstd::arithmetic::power2::lemma2_to64_rest();
    vstd::bits::lemma_u64_pow2_no_overflow(k as nat);
    vstd::bits::lemma_u64_shl_is_mul(1u64, k);
    let m = vstd::wrapping::u64_specs::wrapping_mul(1u64 << k, DE_BRUIJN_64);
    vstd::bits::lemma_u64_shr_is_div(m, 58u64);
    if k == 12 {
        assert(m == 15951285494903218176);
        assert(m as nat / 288230376151711744 == 55);
    } else if k == 13 {
        assert(m == 13455826916096884736);
        assert(m as nat / 288230376151711744 == 46);
    } else if k == 14 {
        assert(m == 8464909758484217856);
        assert(m as nat / 288230376151711744 == 29);
    } else if k == 15 {
        assert(m == 16929819516968435712);
        assert(m as nat / 288230376151711744 == 58);
    }
}

#[verifier::spinoff_prover]
#[verifier::rlimit(40)]
proof fn lemma_log2_table_16_20(k: u64)
    requires
        16 <= k < 20,
    ensures
        log2_table()[de_bruijn_index(1u64 << k) as int] == k,
{
    vstd::arithmetic::power2::lemma2_to64();
    vstd::arithmetic::power2::lemma2_to64_rest();
    vstd::bits::lemma_u64_pow2_no_overflow(k as nat);
    vstd::bits::lemma_u64_shl_is_mul(1u64, k);
    let m = vstd::wrapping::u64_specs::wrapping_mul(1u64 << k, DE_BRUIJN_64);
    vstd::bits::lemma_u64_shr_is_div(m, 58u64);
    if k == 16 {
        assert(m == 15412894960227319808);
        assert(m as nat / 288230376151711744 == 53);
    } else if k == 17 {
        assert(m == 12379045846745088000);
        assert(m as nat / 288230376151711744 == 42);
    } else if k == 18 {
        assert(m == 6311347619780624384);
        assert(m as nat / 288230376151711744 == 21);
    } else if k == 19 {
        assert(m == 12622695239561248768);
        assert(m as nat / 288230376151711744 == 43);
    }
}

#[verifier::spinoff_prover]
#[verifier::rlimit(40)]
proof fn lemma_log2_table_20_24(k: u64)
    requires
        20 <= k < 24,
    ensures
        log2_table()[de_bruijn_index(1u64 << k) as int] == k,
{
    vstd::arithmetic::power2::lemma2_to64();
    vstd::arithmetic::power2::lemma2_to64_rest();
    vstd::bits::lemma_u64_pow2_no_overflow(k as nat);
    vstd::bits::lemma_u64_shl_is_mul(1u64, k);
    let m = vstd::wrapping::u64_specs::wrapping_mul(1u64 << k, DE_BRUIJN_64);
    vstd::bits::lemma_u64_shr_is_div(m, 58u64);
    if k == 20 {
        assert(m == 6798646405412945920);
        assert(m as nat / 288230376151711744 == 23);
    } else if k == 21 {
        assert(m == 13597292810825891840);
        assert(m as nat / 288230376151711744 == 47);
    } else if k == 22 {
        assert(m == 8747841547942232064);
        assert(m as nat / 288230376151711744 == 30);
    } else if k == 23 {
        assert(m == 17495683095884464128);
        assert(m as nat / 288230376151711744 == 60);
    }
}

#[verifier::spinoff_prover]
#[verifier::rlimit(40)]
proof fn lemma_log2_table_24_28(k: u64)
    requires
        24 <= k < 28,
    ensures
        log2_table()[de_bruijn_index(1u64 << k) as int] == k,
{
    vstd::arithmetic::power2::lemma2_to64();
    vstd::arithmetic::power2::lemma2_to64_rest();
    vstd::bits::lemma_u64_pow2_no_overflow(k as nat);
    vstd::bits::lemma_u64_shl_is_mul(1u64, k);
    let m = vstd::wrapping::u64_specs::wrapping_mul(1u64 << k, DE_BRUIJN_64);
    vstd::bits::lemma_u64_shr_is_div(m, 58u64);
    if k == 24 {
        assert(m == 16544622118059376640);
        assert(m as nat / 288230376151711744 == 57);
    } else if k == 25 {
        assert(m == 14642500162409201664);
        assert(m as nat / 288230376151711744 == 50);
    } else if k == 26 {
        assert(m == 10838256251108851712);
        assert(m as nat / 288230376151711744 == 37);
    } else if k == 27 {
        assert(m == 3229768428508151808);
        assert(m as nat / 288230376151711744 == 11);
    }
}

#[verifier::spinoff_prover]
#[verifier::rlimit(40)]
proof fn lemma_log2_table_28_32(k: u64)
    requires
        28 <= k < 32,
    ensures
        log2_table()[de_bruijn_index(1u64 << k) as int] == k,
{
    vstd::arithmetic::power2::lemma2_to64();
    vstd::arithmetic::power2::lemma2_to64_rest();
    vstd::bits::lemma_u64_pow2_no_overflow(k as nat);
    vstd::bits::lemma_u64_shl_is_mul(1u64, k);
    let m = vstd::wrapping::u64_specs::wrapping_mul(1u64 << k, DE_BRUIJN_64);
    vstd::bits::lemma_u64_shr_is_div(m, 58u64);
    if k == 28 {
        assert(m == 6459536857016303616);
        assert(m as nat / 288230376151711744 == 22);
    } else if k == 29 {
        assert(m == 12919073714032607232);
        assert(m as nat / 288230376151711744 == 44);
    } else if k == 30 {
        assert(m == 7391403354355662848);
        assert(m as nat / 288230376151711744 == 25);
    } else if k == 31 {
        assert(m == 14782806708711325696);
        assert(m as nat / 288230376151711744 == 51);
    }
}

#[verifier::spinoff_prover]
#[verifier::rlimit(40)]
proof fn lemma_log2_table_32_36(k: u64)
    requires
        32 <= k < 36,
    ensures
        log2_table()[de_bruijn_index(1u64 << k) as int] == k,
{
    vstd::arithmetic::power2::lemma2_to64();
    vstd::arithmetic::power2::lemma2_to64_rest();
    vstd::bits::lemma_u64_pow2_no_overflow(k as nat);
    vstd::bits::lemma_u64_shl_is_mul(1u64, k);
    let m = vstd::wrapping::u64_specs::wrapping_mul(1u64 << k, DE_BRUIJN_64);
    vstd::bits::lemma_u64_shr_is_div(m, 58u64);
    if k == 32 {
        assert(m == 11118869343713099776);
        assert(m as nat / 288230376151711744 == 38);
    } else if k == 33 {
        assert(m == 3790994613716647936);
        assert(m as nat / 288230376151711744 == 13);
    } else if k == 34 {
        assert(m == 7581989227433295872);
        assert(m as nat / 288230376151711744 == 26);
    } else if k == 35 {
        assert(m == 15163978454866591744);
        assert(m as nat / 288230376151711744 == 52);
    }
}

#[verifier::spinoff_prover]
#[verifier::rlimit(40)]
proof fn lemma_log2_table_36_40(k: u64)
    requires
        36 <= k < 40,
    ensures
        log2_table()[de_bruijn_index(1u64 << k) as int] == k,
{
    vstd::arithmetic::power2::lemma2_to64();
    vstd::arithmetic::power2::lemma2_to64_rest();
    vstd::bits::lemma_u64_pow2_no_overflow(k as nat);
    vstd::bits::lemma_u64_shl_is_mul(1u64, k);
    let m = vstd::wrapping::u64_specs::wrapping_mul(1u64 << k, DE_BRUIJN_64);
    vstd::bits::lemma_u64_shr_is_div(m, 58u64);
    if k == 36 {
        assert(m == 11881212836023631872);
        assert(m as nat / 288230376151711744 == 41);
    } else if k == 37 {
        assert(m == 5315681598337712128);
        assert(m as nat / 288230376151711744 == 18);
    } else if k == 38 {
        assert(m == 10631363196675424256);
        assert(m as nat / 288230376151711744 == 36);
    } else if k == 39 {
        assert(m == 2815982319641296896);
        assert(m as nat / 288230376151711744 == 9);
    }
}

#[verifier::spinoff_prover]
#[verifier::rlimit(40)]
proof fn lemma_log2_table_40_44(k: u64)
    requires
        40 <= k < 44,
    ensures
        log2_table()[de_bruijn_index(1u64 << k) as int] == k,
{
    vstd::arithmetic::power2::lemma2_to64();
    vstd::arithmetic::power2::lemma2_to64_rest();
    vstd::bits::lemma_u64_pow2_no_overflow(k as nat);
    vstd::bits::lemma_u64_shl_is_mul(1u64, k);
    let m = vstd::wrapping::u64_specs::wrapping_mul(1u64 << k, DE_BRUIJN_64);
    vstd::bits::lemma_u64_shr_is_div(m, 58u64);
    if k == 40 {
        assert(m == 5631964639282593792);
        assert(m as nat / 288230376151711744 == 19);
    } else if k == 41 {
        assert(m == 11263929278565187584);
        assert(m as nat / 288230376151711744 == 39);
    } else if k == 42 {
        assert(m == 4081114483420823552);
        assert(m as nat / 288230376151711744 == 14);
    } else if k == 43 {
        assert(m == 8162228966841647104);
        assert(m as nat / 288230376151711744 == 28);
    }
}

#[verifier::spinoff_prover]
#[verifier::rlimit(40)]
proof fn lemma_log2_table_44_48(k: u64)
    requires
        44 <= k < 48,
    ensures
        log2_table()[de_bruijn_index(1u64 << k) as int] == k,
{
    vstd::arithmetic::power2::lemma2_to64();
    vstd::arithmetic::power2::lemma2_to64_rest();
    vstd::bits::lemma_u64_pow2_no_overflow(k as nat);
    vstd::bits::lemma_u64_shl_is_mul(1u64, k);
    let m = vstd::wrapping::u64_specs::wrapping_mul(1u64 << k, DE_BRUIJN_64);
    vstd::bits::lemma_u64_shr_is_div(m, 58u64);
    if k == 44 {
        assert(m == 16324457933683294208);
        assert(m as nat / 288230376151711744 == 56);
    } else if k == 45 {
        assert(m == 14202171793657036800);
        assert(m as nat / 288230376151711744 == 49);
    } else if k == 46 {
        assert(m == 9957599513604521984);
        assert(m as nat / 288230376151711744 == 34);
    } else if k == 47 {
        assert(m == 1468454953499492352);
        assert(m as nat / 288230376151711744 == 5);
    }
}

#[verifier::spinoff_prover]
#[verifier::rlimit(40)]
proof fn lemma_log2_table_48_52(k: u64)
    requires
        48 <= k < 52,
    ensures
        log2_table()[de_bruijn_index(1u64 << k) as int] == k,
{
    vstd::arithmetic::power2::lemma2_to64();
    vstd::arithmetic::power2::lemma2_to64_rest();
    vstd::bits::lemma_u64_pow2_no_overflow(k as nat);
    vstd::bits::lemma_u64_shl_is_mul(1u64, k);
    let m = vstd::wrapping::u64_specs::wrapping_mul(1u64 << k, DE_BRUIJN_64);
    vstd::bits::lemma_u64_shr_is_div(m, 58u64);
    if k == 48 {
        assert(m == 2936909906998984704);
        assert(m as nat / 288230376151711744 == 10);
    } else if k == 49 {
        assert(m == 5873819813997969408);
        assert(m as nat / 288230376151711744 == 20);
    } else if k == 50 {
        assert(m == 11747639627995938816);
        assert(m as nat / 288230376151711744 == 40);
    } else if k == 51 {
        assert(m == 5048535182282326016);
        assert(m as nat / 288230376151711744 == 17);
    }
}

#[verifier::spinoff_prover]
#[verifier::rlimit(40)]
proof fn lemma_log2_table_52_56(k: u64)
    requires
        52 <= k < 56,
    ensures
        log2_table()[de_bruijn_index(1u64 << k) as int] == k,
{
    vstd::arithmetic::power2::lemma2_to64();
    vstd::arithmetic::power2::lemma2_to64_rest();
    vstd::bits::lemma_u64_pow2_no_overflow(k as nat);
    vstd::bits::lemma_u64_shl_is_mul(1u64, k);
    let m = vstd::wrapping::u64_specs::wrapping_mul(1u64 << k, DE_BRUIJN_64);
    vstd::bits::lemma_u64_shr_is_div(m, 58u64);
    if k == 52 {
        assert(m == 10097070364564652032);
        assert(m as nat / 288230376151711744 == 35);
    } else if k == 53 {
        assert(m == 1747396655419752448);
        assert(m as nat / 288230376151711744 == 6);
    } else if k == 54 {
        assert(m == 3494793310839504896);
        assert(m as nat / 288230376151711744 == 12);
    } else if k == 55 {
        assert(m == 6989586621679009792);
        assert(m as nat / 288230376151711744 == 24);
    }
}

#[verifier::spinoff_prover]
#[verifier::rlimit(40)]
proof fn lemma_log2_table_56_60(k: u64)
    requires
        56 <= k < 60,
    ensures
        log2_table()[de_bruijn_index(1u64 << k) as int] == k,
{
    vstd::arithmetic::power2::lemma2_to64();
    vstd::arithmetic::power2::lemma2_to64_rest();
    vstd::bits::lemma_u64_pow2_no_overflow(k as nat);
    vstd::bits::lemma_u64_shl_is_mul(1u64, k);
    let m = vstd::wrapping::u64_specs::wrapping_mul(1u64 << k, DE_BRUIJN_64);
    vstd::bits::lemma_u64_shr_is_div(m, 58u64);
    if k == 56 {
        assert(m == 13979173243358019584);
        assert(m as nat / 288230376151711744 == 48);
    } else if k == 57 {
        assert(m == 9511602413006487552);
        assert(m as nat / 288230376151711744 == 33);
    } else if k == 58 {
        assert(m == 576460752303423488);
        assert(m as nat / 288230376151711744 == 2);
    } else if k == 59 {
        assert(m == 1152921504606846976);
        assert(m as nat / 288230376151711744 == 4);
    }
}

#[verifier::spinoff_prover]
#[verifier::rlimit(40)]
proof fn lemma_log2_table_60_64(k: u64)
    requires
        60 <= k < 64,
    ensures
        log2_table()[de_bruijn_index(1u64 << k) as int] == k,
{
    vstd::arithmetic::power2::lemma2_to64();
    vstd::arithmetic::power2::lemma2_to64_rest();
    vstd::bits::lemma_u64_pow2_no_overflow(k as nat);
    vstd::bits::lemma_u64_shl_is_mul(1u64, k);
    let m = vstd::wrapping::u64_specs::wrapping_mul(1u64 << k, DE_BRUIJN_64);
    vstd::bits::lemma_u64_shr_is_div(m, 58u64);
    if k == 60 {
        assert(m == 2305843009213693952);
        assert(m as nat / 288230376151711744 == 8);
    } else if k == 61 {
        assert(m == 4611686018427387904);
        assert(m as nat / 288230376151711744 == 16);
    } else if k == 62 {
        assert(m == 9223372036854775808);
        assert(m as nat / 288230376151711744 == 32);
    } else if k == 63 {
        assert(m == 0);
        assert(m as nat / 288230376151711744 == 0);
    }
}

proof fn lemma_log2_table(k: u64)
    requires
        k < 64,
    ensures
        log2_table()[de_bruijn_index(1u64 << k) as int] == k,
{
    if k < 4 {
        lemma_log2_table_0_4(k);
    } else if k < 8 {
        lemma_log2_table_4_8(k);
    } else if k < 12 {
        lemma_log2_table_8_12(k);
    } else if k < 16 {
        lemma_log2_table_12_16(k);
    } else if k < 20 {
        lemma_log2_table_16_20(k);
    } else if k < 24 {
        lemma_log2_table_20_24(k);
    } else if k < 28 {
        lemma_log2_table_24_28(k);
    } else if k < 32 {
        lemma_log2_table_28_32(k);
    } else if k < 36 {
        lemma_log2_table_32_36(k);
    } else if k < 40 {
        lemma_log2_table_36_40(k);
    } else if k < 44 {
        lemma_log2_table_40_44(k);
    } else if k < 48 {
        lemma_log2_table_44_48(k);
    } else if k < 52 {
        lemma_log2_table_48_52(k);
    } else if k < 56 {
        lemma_log2_table_52_56(k);
    } else if k < 60 {
        lemma_log2_table_56_60(k);
    } else if k < 64 {
        lemma_log2_table_60_64(k);
    }
}

/// Computes the base-2 logarithm of `value` rounded down, that is the position of its highest
/// set bit. Zero gives `63`.
pub fn fast_log2_64(value: u64) -> (r: u64)
    ensures
        r < 64,
        value == 0 ==> r == 63,
        value != 0 ==> value >> r == 1,
{
    let table: [u64; 64] = [
        63, 0, 58, 1, 59, 47, 53, 2, 60, 39, 48, 27, 54, 33, 42, 3, 61, 51, 37, 40, 49, 18, 28,
        20, 55, 30, 34, 11, 43, 14, 22, 4, 62, 57, 46, 52, 38, 26, 32, 41, 50, 36, 17, 19, 29, 10,
        13, 21, 56, 45, 25, 31, 35, 16, 9, 12, 44, 24, 15, 8, 23, 7, 6, 5,
    ];
    assert(table@ =~= log2_table());
    let mut v = value;
    v |= v >> 1u64;
    v |= v >> 2u64;
    v |= v >> 4u64;
    v |= v >> 8u64;
    v |= v >> 16u64;
    v |= v >> 32u64;
    assert(v == smear(value));
    assert((v >> 1u64) <= v) by (bit_vector);
    let p = v - (v >> 1u64);
    let idx = p.wrapping_mul(DE_BRUIJN_64) >> 58u64;
    assert(idx < 64) by (bit_vector)
        requires idx == p.wrapping_mul(DE_BRUIJN_64) >> 58u64;
    proof {
        if value == 0 {
            assert(value == 0 ==> smear(value) == 0) by (bit_vector);
            assert(p == 0);
            assert(idx == 0) by (bit_vector)
                requires idx == p.wrapping_mul(DE_BRUIJN_64) >> 58u64, p == 0;
        } else {
            lemma_highest_bit(value);
            let k = highest_bit(value);
            assert((value >> k) == 1 && k < 64 ==> smear(value) - (smear(value) >> 1u64) == (1u64
                << k)) by (bit_vector);
            assert(idx == de_bruijn_index(1u64 << k));
            lemma_log2_table(k);
        }
    }
    table[idx as usize]
}

/// Computes the base-2 logarithm of `value` rounded up, as the floored logarithm of
/// `2 * value - 1` (in wrapping arithmetic). Zero gives `63`.
pub fn fast_ceil_log2_64(value: u64) -> (r: u64)
    ensures
        r < 64,
        ({
            let w = vstd::wrapping::u64_specs::wrapping_sub(
                vstd::wrapping::u64_specs::wrapping_shl(value, 1),
                1,
            );
            &&& w == 0 ==> r == 63
            &&& w != 0 ==> w >> r == 1
        }),
{
    fast_log2_64(value.wrapping_shl(1).wrapping_sub(1))
}

/// Mathematical floor of `x / y`.
pub open spec fn floor_div(x: int, y: int) -> int
    recommends
        y != 0,
{
    if y > 0 {
        x / y
    } else {
        (-x) / (-y)
    }
}

proof fn lemma_floor_div_unique(x: int, y: int, q: int)
    requires
        y != 0,
        y > 0 ==> q * y <= x < q * y + y,
        y < 0 ==> q * y >= x > q * y + y,
    ensures
        q == floor_div(x, y),
{
    if y > 0 {
        vstd::arithmetic::div_mod::lemma_fundamental_div_mod(x, y);
        let d = x / y;
        assert(d * y <= x < d * y + y) by (nonlinear_arith)
            requires x == y * d + x % y, 0 <= x % y < y;
        if q < d {
            assert(q * y + y <= d * y) by (nonlinear_arith) requires q < d, y > 0;
        } else if q > d {
            assert(d * y + y <= q * y) by (nonlinear_arith) requires q > d, y > 0;
        }
    } else {
        let nx = -x;
        let ny = -y;
        vstd::arithmetic::div_mod::lemma_fundamental_div_mod(nx, ny);
        let d = nx / ny;
        assert(d * ny <= nx < d * ny + ny) by (nonlinear_arith)
            requires nx == ny * d + nx % ny, 0 <= nx % ny < ny;
        assert(q * ny <= nx < q * ny + ny) by (nonlinear_arith)
            requires q * y >= x > q * y + y, nx == -x, ny == -y;
        if q < d {
            assert(q * ny + ny <= d * ny) by (nonlinear_arith) requires q < d, ny > 0;
        } else if q > d {
            assert(d * ny + ny <= q * ny) by (nonlinear_arith) requires q > d, ny > 0;
        }
    }
}

proof fn lemma_truncated_quotient(x: int, y: int, ax: int, ay: int, mq: int, q0: int)
    requires
        y != 0,
        ax == (if x < 0 { -x } else { x }),
        ay == (if y < 0 { -y } else { y }),
        mq * ay <= ax < mq * ay + ay,
        q0 == (if (x < 0) == (y < 0) { mq } else { -mq }),
    ensures
        (x < 0) == (y < 0) ==> q0 == floor_div(x, y),
        (x < 0) != (y < 0) && q0 * y == x ==> q0 == floor_div(x, y),
        (x < 0) != (y < 0) && q0 * y != x ==> q0 - 1 == floor_div(x, y),
{
    let p = mq * ay;
    if y > 0 {
        assert(mq * y == p);
        assert((-mq) * y == -p) by (nonlinear_arith) requires p == mq * y;
        assert((-mq - 1) * y == -p - y) by (nonlinear_arith) requires p == mq * y;
        if x >= 0 {
            lemma_floor_div_unique(x, y, q0);
        } else if q0 * y == x {
            lemma_floor_div_unique(x, y, q0);
        } else {
            lemma_floor_div_unique(x, y, q0 - 1);
        }
    } else {
        assert(mq * y == -p) by (nonlinear_arith) requires p == mq * ay, ay == -y;
        assert((-mq) * y == p) by (nonlinear_arith) requires p == mq * ay, ay == -y;
        assert((-mq - 1) * y == p + ay) by (nonlinear_arith) requires p == mq * ay, ay == -y;
        if x < 0 {
            lemma_floor_div_unique(x, y, q0);
        } else if q0 * y == x {
            lemma_floor_div_unique(x, y, q0);
        } else {
            lemma_floor_div_unique(x, y, q0 - 1);
        }
    }
}

proof fn lemma_floor_div_range(x: int, y: int)
    requires
        y != 0,
        i32::MIN <= x <= i32::MAX,
        i32::MIN <= y <= i32::MAX,
        !(x == i32::MIN && y == -1),
    ensures
        i32::MIN <= floor_div(x, y) <= i32::MAX,
{
    let q = floor_div(x, y);
    if y > 0 {
        vstd::arithmetic::div_mod::lemma_fundamental_div_mod(x, y);
        assert(q * y <= x < q * y + y) by (nonlinear_arith)
            requires x == y * q + x % y, 0 <= x % y < y;
        assert(i32::MIN <= q <= i32::MAX) by (nonlinear_arith)
            requires q * y <= x < q * y + y, y >= 1, i32::MIN <= x <= i32::MAX;
    } else {
        vstd::arithmetic::div_mod::lemma_fundamental_div_mod(-x, -y);
        assert(q * (-y) <= -x < q * (-y) + (-y)) by (nonlinear_arith)
            requires -x == (-y) * q + (-x) % (-y), 0 <= (-x) % (-y) < -y;
        assert(i32::MIN <= q <= i32::MAX) by (nonlinear_arith)
            requires
                q * (-y) <= -x < q * (-y) + (-y),
                y <= -1,
                i32::MIN <= x <= i32::MAX,
                !(x == i32::MIN && y == -1),
        ;
    }
}

/// Divides x by y rounding down to the nearest integer.
pub fn div_floor(x: i32, y: i32) -> (r: i32)
    requires
        y != 0,
        !(x == i32::MIN && y == -1),
    ensures
        r == floor_div(x as int, y as int),
{
    // Quotient rounded toward zero, computed on the magnitudes.
    let ax: i64 = if x < 0 { -(x as i64) } else { x as i64 };
    let ay: i64 = if y < 0 { -(y as i64) } else { y as i64 };
    let mq: i64 = ax / ay;
    proof {
        vstd::arithmetic::div_mod::lemma_fundamental_div_mod(ax as int, ay as int);
        assert(mq * ay <= ax < mq * ay + ay) by (nonlinear_arith)
            requires ax == ay * mq + ax % ay, 0 <= ax % ay < ay;
        assert(0 <= mq <= ax) by (nonlinear_arith)
            requires mq * ay <= ax < mq * ay + ay, ay >= 1, ax >= 0;
        assert(-0x8000_0000 * 0x8000_0000 <= mq * y <= 0x8000_0000 * 0x8000_0000) by (nonlinear_arith)
            requires 0 <= mq <= 0x8000_0000, -0x8000_0000 <= y <= 0x8000_0000;
    }
    let mut r: i64 = if (x < 0) == (y < 0) { mq } else { -mq };
    proof {
        lemma_truncated_quotient(x as int, y as int, ax as int, ay as int, mq as int, r as int);
        assert((x ^ y) < 0 <==> ((x < 0) != (y < 0))) by (bit_vector);
        assert(-0x8000_0000 * 0x8000_0000 <= r * y <= 0x8000_0000 * 0x8000_0000) by (nonlinear_arith)
            requires -0x8000_0000 <= r <= 0x8000_0000, -0x8000_0000 <= y <= 0x8000_0000;
    }
    if (x ^ y) < 0 && (r * (y as i64) != x as i64) {
        r -= 1;
    }
    proof {
        lemma_floor_div_range(x as int, y as int);
    }
    r as i32
}

/// The floored logarithm brackets its value: `2^r <= value < 2^(r + 1)`.
pub proof fn law_log2_rounds_down(value: u64, r: u64)
    requires
        value != 0,
        r < 64,
        value >> r == 1,
    ensures
        (1u64 << r) <= value,
        r < 63 ==> value < (1u64 << (r + 1) as u64),
{
    assert((1u64 << r) <= value && (r < 63 ==> value < (1u64 << (r + 1) as u64))) by (bit_vector)
        requires
            value != 0,
            r < 64,
            value >> r == 1,
    ;
}

/// The ceiled logarithm brackets its value from above: `2^(r - 1) < value <= 2^r`, for every
/// value from 1 to `2^63`.
pub proof fn law_ceil_log2_rounds_up(value: u64, r: u64)
    requires
        1 <= value <= 0x8000_0000_0000_0000u64,
        r < 64,
        vstd::wrapping::u64_specs::wrapping_sub(vstd::wrapping::u64_specs::wrapping_shl(value, 1), 1)
            >> r == 1,
    ensures
        value <= (1u64 << r),
        r > 0 ==> (1u64 << (r - 1) as u64) < value,
{
    let w = vstd::wrapping::u64_specs::wrapping_sub(vstd::wrapping::u64_specs::wrapping_shl(value, 1), 1);
    assert(w as int + 1 == 2 * value) by {
        assert(vstd::wrapping::u64_specs::wrapping_shl(value, 1) as int == 2 * value % 0x1_0000_0000_0000_0000) by {
            assert(((value << 1u64) as int) == (2 * value) % 0x1_0000_0000_0000_0000) by (bit_vector);
        }
    }
    assert(value <= (1u64 << r) && (r > 0 ==> (1u64 << (r - 1) as u64) < value)) by (bit_vector)
        requires
            1 <= value <= 0x8000_0000_0000_0000u64,
            r < 64,
            w as int + 1 == 2 * value,
            w >> r == 1,
    ;
}

} // verus!
