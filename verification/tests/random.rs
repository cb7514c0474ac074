use quartz::worldgen::random::java::JavaRandom;
use quartz::worldgen::random::legacy_random::LegacyRandom;
use quartz::worldgen::random::util::{
    get_pos_seed, hash_string_md5, i64_seed_to_u128_seed, java_string_hash, mix_stafford_13,
};
use quartz::worldgen::random::worldgen::seed_slime_chunks;

#[test]
fn java_random_matches_java() {
    let mut r = JavaRandom::with_seed(0);
    assert_eq!(r.next_int(), -1155484576);
    let mut r = JavaRandom::with_seed(42);
    assert_eq!(r.next_int(), -1170105035);
    let mut r = JavaRandom::with_seed(0);
    assert_eq!(r.next_long(), -4962768465676381896);
}

#[test]
fn java_random_bounded() {
    let mut r = JavaRandom::with_seed(42);
    let drawn: Vec<i32> = (0..5).map(|_| r.next_int_bounded(10)).collect();
    assert_eq!(drawn, vec![0, 3, 8, 4, 0]);
    let mut r = JavaRandom::with_seed(42);
    let drawn: Vec<i32> = (0..3).map(|_| r.next_int_bounded(16)).collect();
    assert_eq!(drawn, vec![11, 0, 10]);
}

#[test]
fn java_random_bools() {
    let mut r = JavaRandom::with_seed(0);
    let drawn: Vec<bool> = (0..4).map(|_| r.next_bool()).collect();
    assert_eq!(drawn, vec![true, true, false, true]);
}

#[test]
fn java_random_same_seed_same_values() {
    let mut a = JavaRandom::with_seed(123456789);
    let mut b = JavaRandom::with_seed(123456789);
    for _ in 0..10 {
        assert_eq!(a.next_int(), b.next_int());
    }
    a.set_seed(7);
    b.set_seed(7);
    let mut x = [0u8; 7];
    let mut y = [0u8; 7];
    a.next_bytes(&mut x);
    b.next_bytes(&mut y);
    assert_eq!(x, y);
}

#[test]
fn legacy_random_matches_java() {
    let mut r = LegacyRandom::new(0);
    assert_eq!(r.next_bits(32), -1155484576);
    let mut r = LegacyRandom::new(0);
    assert_eq!(r.next_long(), -4962768465676381896);
}

#[test]
fn string_hashes() {
    assert_eq!(java_string_hash("hello"), 99162322);
    assert_eq!(java_string_hash(""), 0);
    assert_eq!(java_string_hash("minecraft:overworld"), 1104210353);
}

#[test]
fn stafford_mixing() {
    assert_eq!(mix_stafford_13(0), 0);
    assert_eq!(mix_stafford_13(1), 6238072747940578789);
    assert_eq!(mix_stafford_13(12345), -906084347102765743);
    assert_eq!(i64_seed_to_u128_seed(0), (3847398142028685078, 7192185014346937746));
    assert_eq!(i64_seed_to_u128_seed(42), (6720814022939733433, -2851323883594622011));
}

#[test]
fn positional_seeds() {
    assert_eq!(get_pos_seed(0, 0, 0), 0);
    assert_eq!(get_pos_seed(1, 2, 3), -33674130277896);
    assert_eq!(get_pos_seed(-5, 64, 100), -131967588646891);
}

#[test]
fn md5_seeds() {
    assert_eq!(hash_string_md5(""), (-3162216497309240828, -1621285313438006658));
    assert_eq!(hash_string_md5("minecraft:test"), (1885711875966874721, 3357099975631595687));
}

#[test]
fn slime_chunk_generator() {
    let mut r = seed_slime_chunks(1, 2, 12345, 987234911);
    let mut expected = JavaRandom::with_seed(996609803);
    assert_eq!(r.next_int_bounded(10), 6);
    assert_eq!(expected.next_int_bounded(10), 6);
}

#[test]
fn java_random_checked_draws() {
    let mut r = JavaRandom::with_seed(42);
    assert_eq!(r.try_next_int_bounded(0), None);
    assert_eq!(r.try_next_int_bounded(-5), None);
    let drawn: Vec<Option<i32>> = (0..5).map(|_| r.try_next_int_bounded(10)).collect();
    assert_eq!(drawn, vec![Some(0), Some(3), Some(8), Some(4), Some(0)]);
    // The next 31-bit draw of this state is 2147483646, which falls in the uneven top part of
    // the range for 3, so a second draw (1109799718) is made.
    let mut edge = JavaRandom::with_raw_seed(266286910286505);
    assert_eq!(edge.try_next_int_bounded(3), Some(1));
    assert_eq!(edge.try_next_int_bounded(3), Some(0));
    assert_eq!(edge.try_next_int_bounded(4), Some(0));
    let mut again = JavaRandom::with_raw_seed(266286910286505);
    assert_eq!(again.next_int_bounded(3), 1);
    // Two draws whose sum passes below i64::MIN wrap around, as Java's longs do.
    let mut low = JavaRandom::with_raw_seed(247785492720297);
    let hi: i64 = i32::MIN as i64;
    let mut probe = JavaRandom::with_raw_seed(247785492720297);
    probe.next_int();
    let lo = probe.next_int() as i64;
    assert_eq!(low.next_long(), (hi << 32).wrapping_add(lo));
}

#[test]
fn seed_upgrade_wraps() {
    assert_eq!(
        i64_seed_to_u128_seed(-1582480459898762999),
        (2720858781877447050, 5196802822362493915)
    );
}
