use quartz::qutil::math::{binary_search, div_floor, fast_ceil_log2_64, fast_log2_64, unsigned_shr, unsigned_shr_i64};

#[test]
fn log2_examples() {
    for i in 0..64 {
        assert_eq!(fast_log2_64(1 << i), i as u64);
    }

    assert_eq!(fast_log2_64(15), 3);
    assert_eq!(fast_log2_64(17), 4);
    assert_eq!(fast_log2_64(651854213), 29);
    assert_eq!(fast_log2_64(0), 63);
    assert_eq!(fast_log2_64(u64::MAX), 63);
}

#[test]
fn ceil_log2_examples() {
    for i in 0..64 {
        assert_eq!(fast_ceil_log2_64(1 << i), i as u64);
    }

    assert_eq!(fast_ceil_log2_64(15), 4);
    assert_eq!(fast_ceil_log2_64(17), 5);
    assert_eq!(fast_ceil_log2_64(651854213), 30);
    assert_eq!(fast_ceil_log2_64(0), 63);
}

#[test]
fn log2_brackets_values() {
    for v in [1u64, 2, 3, 5, 100, 1000, 12345678, 1 << 40, (1 << 50) + 3] {
        let r = fast_log2_64(v);
        assert!(1u64 << r <= v);
        assert!(r == 63 || v < 1u64 << (r + 1));
        let c = fast_ceil_log2_64(v);
        assert!(v <= 1u64 << c);
        assert!(c == 0 || 1u64 << (c - 1) < v);
    }
}

#[test]
fn unsigned_shifts() {
    assert_eq!(unsigned_shr(-1, 28), 15);
    assert_eq!(unsigned_shr(-8, 1), 0x7FFF_FFFC);
    assert_eq!(unsigned_shr(64, 3), 8);
    assert_eq!(unsigned_shr_i64(-1, 60), 15);
    assert_eq!(unsigned_shr_i64(1 << 40, 40), 1);
}

#[test]
fn floor_division() {
    assert_eq!(div_floor(7, 2), 3);
    assert_eq!(div_floor(-7, 2), -4);
    assert_eq!(div_floor(7, -2), -4);
    assert_eq!(div_floor(-7, -2), 3);
    assert_eq!(div_floor(-8, 2), -4);
    assert_eq!(div_floor(0, 5), 0);
    assert_eq!(div_floor(i32::MIN, 1), i32::MIN);
}

#[test]
fn binary_search_finds_first() {
    assert_eq!(binary_search(0, 100, |x| x >= 37), 37);
    assert_eq!(binary_search(0, 100, |x| x >= 0), 0);
    assert_eq!(binary_search(0, 100, |_| false), 100);
    assert_eq!(binary_search(-50, 50, |x| x * x >= 400 && x > 0), 20);
    assert_eq!(binary_search(10, 5, |_| true), 10);
}
