use quartz::mc_datatype_helpers::write_varint;
use quartz::util::ioutil::ByteBuffer;

fn contents(buf: &mut ByteBuffer) -> Vec<u8> {
    let mut out = Vec::new();
    for i in 0..buf.len() {
        out.push(buf.get(i));
    }
    out
}

#[test]
fn varint_encoding_examples() {
    let cases: [(i32, &[u8]); 6] = [
        (0, &[0x00]),
        (1, &[0x01]),
        (127, &[0x7f]),
        (128, &[0x80, 0x01]),
        (300, &[0xac, 0x02]),
        (2147483647, &[0xff, 0xff, 0xff, 0xff, 0x07]),
    ];
    for (value, bytes) in cases.iter() {
        let mut buf = ByteBuffer::new(bytes.len());
        buf.write_varint(*value);
        assert_eq!(buf.cursor(), bytes.len());
        assert_eq!(contents(&mut buf), bytes.to_vec());
        assert_eq!(ByteBuffer::varint_size(*value), bytes.len());
        buf.reset_cursor();
        assert_eq!(buf.read_varint(), *value);
        assert_eq!(buf.cursor(), bytes.len());
    }
    assert_eq!(ByteBuffer::varint_size(-1), 5);
}

#[test]
fn varint_into_slice() {
    let mut raw = [0u8; 8];
    let n = write_varint(300, &mut raw, 2);
    assert_eq!(n, 2);
    assert_eq!(raw, [0, 0, 0xac, 0x02, 0, 0, 0, 0]);
}

#[test]
fn fixed_width_roundtrips() {
    let mut buf = ByteBuffer::new(1 + 1 + 2 + 2 + 4 + 8 + 1);
    buf.write_u8(200);
    buf.write_i8(-5);
    buf.write_u16(0xBEEF);
    buf.write_i16(-2);
    buf.write_i32(-123456789);
    buf.write_i64(0x0102030405060708);
    buf.write_bool(true);
    assert_eq!(buf.remaining(), 0);
    buf.reset_cursor();
    assert_eq!(buf.read_u8(), 200);
    assert_eq!(buf.read_i8(), -5);
    assert_eq!(buf.read_u16(), 0xBEEF);
    assert_eq!(buf.read_i16(), -2);
    assert_eq!(buf.read_i32(), -123456789);
    assert_eq!(buf.read_i64(), 0x0102030405060708);
    assert!(buf.read_bool());
    buf.set_cursor(4);
    assert_eq!(buf.read(), 0xFF);
    assert_eq!(buf.get(6), 0xF8);
}

#[test]
fn big_endian_layout() {
    let mut buf = ByteBuffer::new(4);
    buf.write_i32(0x01020304);
    assert_eq!(contents(&mut buf), vec![1, 2, 3, 4]);
}

#[test]
fn string_roundtrip() {
    let text = String::from("héllo, wörld");
    let mut buf = ByteBuffer::new(64);
    buf.write_string(&text);
    assert_eq!(buf.cursor(), 1 + text.len());
    assert_eq!(buf.get(0) as usize, text.len());
    buf.reset_cursor();
    assert_eq!(buf.read_string(), text);
}

#[test]
fn invalid_utf8_reads_empty() {
    let mut buf = ByteBuffer::new(3);
    buf.write_bytes(&[2, 0xff, 0xfe]);
    buf.reset_cursor();
    assert_eq!(buf.read_string(), "");
    assert_eq!(buf.cursor(), 3);
}

#[test]
fn byte_arrays() {
    let mut buf = ByteBuffer::new(5);
    buf.write_byte_array(vec![9, 8, 7]);
    buf.write_bytes(&[6, 5]);
    buf.reset_cursor();
    assert_eq!(buf.read_byte_array(2), vec![9, 8]);
    let mut rest = vec![0u8; 3];
    buf.read_blob(&mut rest);
    assert_eq!(rest, vec![7, 6, 5]);
}

#[test]
fn resize_and_clear() {
    let mut buf = ByteBuffer::new(2);
    buf.write(1);
    buf.write(2);
    buf.resize(4);
    assert_eq!(contents(&mut buf), vec![1, 2, 0, 0]);
    assert_eq!(buf.cursor(), 2);
    buf.resize(1);
    assert_eq!(contents(&mut buf), vec![1]);
    assert_eq!(buf.cursor(), 1);
    buf.clear();
    assert_eq!(buf.len(), 0);
    assert_eq!(buf.cursor(), 0);
}

#[test]
fn append_after_cursor() {
    let mut buf = ByteBuffer::new(4);
    buf.write(7);
    buf.append_bytes(&[1, 2]);
    assert_eq!(contents(&mut buf), vec![7, 1, 2]);
    assert_eq!(buf.cursor(), 1);
}

#[test]
fn byte_buffer_from_slice() {
    let bytes: &[u8] = &[0x01, 0x02, 0xAC, 0x02];
    let mut buf = ByteBuffer::from(bytes);
    assert_eq!(buf.len(), 4);
    assert_eq!(buf.cursor(), 0);
    assert_eq!(buf.read_u16(), 0x0102);
    assert_eq!(buf.read_varint(), 300);
}

#[test]
fn negative_varints_take_five_bytes() {
    let mut buf = [0u8; 5];
    assert_eq!(write_varint(-1, &mut buf, 0), 5);
    assert_eq!(buf, [0xFF, 0xFF, 0xFF, 0xFF, 0x0F]);
    let mut buf = [0u8; 5];
    assert_eq!(write_varint(300, &mut buf, 0), 2);
    assert_eq!(buf, [0xAC, 0x02, 0, 0, 0]);
    let mut bb = ByteBuffer::new(5);
    bb.write_varint(i32::MIN);
    assert_eq!(bb.cursor(), 5);
    bb.reset_cursor();
    assert_eq!(bb.read_varint(), i32::MIN);
    assert_eq!(ByteBuffer::varint_size(-1), 5);
}
