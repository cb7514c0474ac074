use quartz::qutil::hash::NumHasher;

#[test]
fn integers_hash_to_themselves() {
    let builder = NumHasher;
    let mut h = builder.build_hasher();
    assert_eq!(h.finish(), 0);
    h.write_u64(0xDEAD_BEEF_1234);
    assert_eq!(h.finish(), 0xDEAD_BEEF_1234);
    h.write_u8(7);
    assert_eq!(h.finish(), 7);
    h.write_i8(-1);
    assert_eq!(h.finish(), u64::MAX);
    h.write_i32(-2);
    assert_eq!(h.finish(), u64::MAX - 1);
    h.write_u32(40000);
    assert_eq!(h.finish(), 40000);
    h.write_i16(-3);
    assert_eq!(h.finish(), (-3i64) as u64);
    h.write_u16(65535);
    assert_eq!(h.finish(), 65535);
    h.write_i64(i64::MIN);
    assert_eq!(h.finish(), 1u64 << 63);
}

#[test]
fn byte_chunks_fold_little_endian() {
    let mut h = NumHasher.build_hasher();
    h.write(&[1, 2, 3]);
    assert_eq!(h.finish(), 0x030201);
    h.write(&[1, 0, 0, 0, 0, 0, 0, 0]);
    assert_eq!(h.finish(), 0x030200);
    let mut g = NumHasher.build_hasher();
    g.write(&[1, 0, 0, 0, 0, 0, 0, 0, 2]);
    // chunks [1,0,..,0] and [2] padded with zeros
    assert_eq!(g.finish(), 1 ^ 2);
    let mut e = NumHasher.build_hasher();
    e.write(&[]);
    assert_eq!(e.finish(), 0);
}
