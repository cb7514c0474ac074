use quartz::data::uuid::Uuid as DataUuid;
use quartz::qutil::uuid::Uuid;

#[test]
fn uuid_from_bytes_be() {
    let uuid = Uuid::from_bytes_be(&[121, 25, 167, 155, 178, 86, 71, 130, 191, 54, 19, 153, 12, 166, 91, 183]);
    assert_eq!(uuid.as_u128(), 0x7919a79bb2564782bf3613990ca65bb7_u128);
}

#[test]
fn uuid_from_bytes_le() {
    let uuid = Uuid::from_bytes_le(&[183, 91, 166, 12, 153, 19, 54, 191, 130, 71, 86, 178, 155, 167, 25, 121]);
    assert_eq!(uuid.as_u128(), 0x7919a79bb2564782bf3613990ca65bb7_u128);
}

#[test]
fn uuid_from_str_and_back() {
    let uuid = Uuid::from_str("7919a79b-b256-4782-bf36-13990ca65bb7").unwrap();
    assert_eq!(uuid.as_u128(), 0x7919a79bb2564782bf3613990ca65bb7_u128);
    assert_eq!(uuid.to_string(), "7919a79b-b256-4782-bf36-13990ca65bb7");
    let condensed = Uuid::from_str("7919A79BB2564782BF3613990CA65BB7").unwrap();
    assert_eq!(condensed.as_u128(), uuid.as_u128());
}

#[test]
fn uuid_bits() {
    let uuid = Uuid::from(0x7919a79bb2564782bf3613990ca65bb7_u128);
    assert_eq!(uuid.most_significant_bits(), 0x7919a79bb2564782_u64);
    assert_eq!(uuid.least_significant_bits(), 0xbf3613990ca65bb7_u64);
}

#[test]
fn uuid_version_is_set() {
    let uuid = Uuid::from_bytes_be(&[0u8; 16]);
    assert_eq!(uuid.as_u128(), 0x00000000_0000_4000_8000_000000000000_u128);
    let parsed = Uuid::from_str("ffffffff-ffff-ffff-ffff-ffffffffffff").unwrap();
    assert_eq!(parsed.as_u128(), 0xffffffff_ffff_4fff_bfff_ffffffffffff_u128);
}

#[test]
fn uuid_errors() {
    assert_eq!(Uuid::from_str("1234").unwrap_err(), "Expected condensed string to have length 32.");
    assert_eq!(Uuid::from_str("g919a79b-b256-4782-bf36-13990ca65bb7").unwrap_err(), "Invalid UUID string.");
}

#[test]
fn uuid_random_text_parses_back() {
    for _ in 0..20 {
        let u = Uuid::random();
        let back = Uuid::from_str(&u.to_string()).unwrap();
        assert_eq!(back.as_u128(), u.as_u128());
        assert_eq!((u.as_u128() >> 76) & 0xF, 4);
        assert_eq!((u.as_u128() >> 62) & 0x3, 2);
    }
}

#[test]
fn data_uuid_from_bytes() {
    let u = DataUuid::from_bytes(&[121, 25, 167, 155, 178, 86, 71, 130, 191, 54, 19, 153, 12, 166, 91, 183]).unwrap();
    assert_eq!(u.as_u128(), 0x19a79bb2564782bf3613990ca65bb700_u128);
    assert_eq!(u.to_string(), "19a79bb2-5647-82bf-3613-990ca65bb700");
    assert_eq!(DataUuid::from_bytes(&[1, 2, 3]).unwrap_err(), "Expected 16 bytes.");
}

#[test]
fn data_uuid_string_roundtrip() {
    let u = DataUuid::from_string("00000000-0000-0000-0000-000000000001").unwrap();
    assert_eq!(u.as_u128(), 1);
    let v = DataUuid::from(0xdeadbeef_u128 << 64);
    let back = DataUuid::from_string(&v.to_string()).unwrap();
    assert_eq!(back.as_u128(), v.as_u128());
    assert_eq!(DataUuid::from_string("xyz").unwrap_err(), "Expected condensed string to have length 32.");
}
