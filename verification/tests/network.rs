use quartz::network::connection::{check_inflated, compressed_frame, ConnectionState, IOHandle, PacketHeader};
use quartz::network::packet_handler::{
    decode_packet, handshake_state, serialize, ClientBoundPacket, PacketEvent, ServerBoundPacket,
    WrappedServerPacket, LEGACY_PING_PACKET_ID, PROTOCOL_VERSION,
};
use quartz::util::ioutil::ByteBuffer;

fn bytes_of(buf: &ByteBuffer) -> Vec<u8> {
    (0..buf.len()).map(|i| buf.get(i)).collect()
}

fn buffer_with(bytes: &[u8]) -> ByteBuffer {
    let mut buf = ByteBuffer::new(bytes.len());
    buf.write_bytes(bytes);
    buf.reset_cursor();
    buf
}

#[test]
fn serialize_pong_and_compression() {
    let mut buf = ByteBuffer::new(9);
    serialize(&ClientBoundPacket::Pong { payload: 0x0102030405060708 }, &mut buf);
    assert_eq!(bytes_of(&buf), vec![0x01, 1, 2, 3, 4, 5, 6, 7, 8]);
    assert_eq!(buf.cursor(), 9);

    let mut buf = ByteBuffer::new(3);
    serialize(&ClientBoundPacket::SetCompression { threshold: 256 }, &mut buf);
    assert_eq!(bytes_of(&buf), vec![0x03, 0x80, 0x02]);
}

#[test]
fn serialize_strings() {
    let mut buf = ByteBuffer::new(16);
    serialize(&ClientBoundPacket::Disconnect { reason: "bye".to_string() }, &mut buf);
    assert_eq!(buf.cursor(), 5);
    assert_eq!(&bytes_of(&buf)[..5], &[0x00, 3, b'b', b'y', b'e']);

    let mut buf = ByteBuffer::new(16);
    serialize(&ClientBoundPacket::LoginSuccess { uuid: "u".to_string(), username: "ab".to_string() }, &mut buf);
    assert_eq!(&bytes_of(&buf)[..6], &[0x02, 1, b'u', 2, b'a', b'b']);

    let mut buf = ByteBuffer::new(16);
    serialize(
        &ClientBoundPacket::LoginPluginRequest { message_id: 7, channel: "c".to_string(), data: vec![9, 9] },
        &mut buf,
    );
    assert_eq!(&bytes_of(&buf)[..6], &[0x04, 7, 1, b'c', 9, 9]);

    let mut buf = ByteBuffer::new(16);
    serialize(
        &ClientBoundPacket::EncryptionRequest {
            server_id: String::new(),
            pub_key_len: 2,
            pub_key: vec![5, 6],
            verify_token_len: 1,
            verify_token: vec![7],
        },
        &mut buf,
    );
    assert_eq!(&bytes_of(&buf)[..8], &[0x01, 0, 2, 5, 6, 1, 7, 0]);
    assert_eq!(buf.cursor(), 7);
}

#[test]
fn decode_handshake() {
    // id 0, version 578, address "a", port 25565, next state 1
    let mut buf = buffer_with(&[0x00, 0xc2, 0x04, 1, b'a', 0x63, 0xdd, 0x01]);
    match decode_packet(ConnectionState::Handshake, &mut buf, 8) {
        Some(PacketEvent::Handshake { version, next_state }) => {
            assert_eq!(version, 578);
            assert_eq!(next_state, 1);
        },
        _ => panic!("expected a handshake"),
    }
    assert_eq!(buf.cursor(), 8);
}

#[test]
fn decode_status_and_ping() {
    let mut buf = buffer_with(&[0x00]);
    assert!(matches!(decode_packet(ConnectionState::Status, &mut buf, 1), Some(PacketEvent::StatusRequest)));
    let mut buf = buffer_with(&[0x01, 0, 0, 0, 0, 0, 0, 0, 42]);
    assert!(matches!(decode_packet(ConnectionState::Status, &mut buf, 9), Some(PacketEvent::Ping { payload: 42 })));
    let mut buf = buffer_with(&[0x05]);
    assert!(matches!(
        decode_packet(ConnectionState::Status, &mut buf, 1),
        Some(PacketEvent::Invalid { id: 5, len: 1 })
    ));
}

#[test]
fn decode_login() {
    let mut buf = buffer_with(&[0x00, 3, b'B', b'o', b'b']);
    match decode_packet(ConnectionState::Login, &mut buf, 5) {
        Some(PacketEvent::LoginStart { name }) => assert_eq!(name, "Bob"),
        _ => panic!("expected a login start"),
    }
    let mut buf = buffer_with(&[0x01, 2, 1, 2, 1, 9]);
    match decode_packet(ConnectionState::Login, &mut buf, 6) {
        Some(PacketEvent::EncryptionResponse { shared_secret, verify_token }) => {
            assert_eq!(shared_secret, vec![1, 2]);
            assert_eq!(verify_token, vec![9]);
        },
        _ => panic!("expected an encryption response"),
    }
    let mut buf = buffer_with(&[0x02, 4, 1, 7, 8]);
    match decode_packet(ConnectionState::Login, &mut buf, 5) {
        Some(PacketEvent::LoginPluginResponse { message_id, successful, data }) => {
            assert_eq!(message_id, 4);
            assert!(successful);
            assert_eq!(data, vec![7, 8]);
        },
        _ => panic!("expected a plugin response"),
    }
}

#[test]
fn decode_malformed_and_ignored() {
    let mut buf = buffer_with(&[0x00, 5, b'a']);
    assert!(decode_packet(ConnectionState::Login, &mut buf, 3).is_none());
    let mut buf = buffer_with(&[0xff, 0xff, 0xff, 0xff, 0xff, 0xff]);
    assert!(decode_packet(ConnectionState::Status, &mut buf, 6).is_none());
    let mut buf = buffer_with(&[0x00]);
    assert!(matches!(decode_packet(ConnectionState::Play, &mut buf, 1), Some(PacketEvent::Ignored)));
    let mut buf = buffer_with(&[0xfe, 0x01, 1, 2]);
    assert!(matches!(decode_packet(ConnectionState::Handshake, &mut buf, 4), Some(PacketEvent::LegacyPing)));
    assert_eq!(LEGACY_PING_PACKET_ID, 0xFE);
}

#[test]
fn handshake_moves_state() {
    assert_eq!(handshake_state(ConnectionState::Handshake, PROTOCOL_VERSION, 1), ConnectionState::Status);
    assert_eq!(handshake_state(ConnectionState::Handshake, PROTOCOL_VERSION, 2), ConnectionState::Login);
    assert_eq!(handshake_state(ConnectionState::Handshake, PROTOCOL_VERSION, 7), ConnectionState::Handshake);
    assert_eq!(handshake_state(ConnectionState::Handshake, 340, 1), ConnectionState::Disconnected);
}

#[test]
fn header_lengths() {
    let handle = IOHandle::new();
    let mut buf = buffer_with(&[0x05, 0x00]);
    assert_eq!(handle.read_header(&mut buf), Some(PacketHeader { raw_len: 5, data_len: 5, compressed: false }));
    assert_eq!(buf.cursor(), 1);

    let mut handle = IOHandle::new();
    handle.set_compression_threshold(64);
    let mut buf = buffer_with(&[0x05, 0x00]);
    assert_eq!(handle.read_header(&mut buf), Some(PacketHeader { raw_len: 5, data_len: 5, compressed: false }));
    assert_eq!(buf.cursor(), 2);
    let mut buf = buffer_with(&[0x05, 0x80, 0x01]);
    assert_eq!(handle.read_header(&mut buf), Some(PacketHeader { raw_len: 5, data_len: 128, compressed: true }));
    let mut buf = buffer_with(&[0x85]);
    assert!(handle.read_header(&mut buf).is_none());
}

#[test]
fn wrapped_packets() {
    let w = WrappedServerPacket::new(3, ServerBoundPacket::StatusRequest);
    assert_eq!(w.sender, 3);
    assert!(matches!(w.packet, ServerBoundPacket::StatusRequest));
}

#[test]
fn frames_without_compression() {
    let io = IOHandle::new();
    assert_eq!(io.frame_packet(&[]), Some(vec![0]));
    assert_eq!(io.frame_packet(&[7, 8, 9]), Some(vec![3, 7, 8, 9]));
    let long = vec![1u8; 300];
    let framed = io.frame_packet(&long).unwrap();
    assert_eq!(&framed[..2], &[0xAC, 0x02]);
    assert_eq!(framed.len(), 302);
    assert_eq!(&framed[2..], &long[..]);
}

#[test]
fn frames_below_threshold() {
    let mut io = IOHandle::new();
    io.set_compression_threshold(10);
    assert_eq!(io.frame_packet(&[7, 8, 9]), Some(vec![4, 0, 7, 8, 9]));
}

#[test]
fn compressed_frames_round_trip() {
    let mut io = IOHandle::new();
    io.set_compression_threshold(0);
    let data: Vec<u8> = (0..300u32).map(|i| (i % 7) as u8).collect();
    let framed = io.frame_packet(&data).unwrap();
    let mut buf = buffer_with(&framed);
    let header = io.read_header(&mut buf).unwrap();
    assert!(header.compressed);
    assert_eq!(header.data_len, 300);
    // The raw length counts the data length field and the compressed bytes.
    assert_eq!(header.raw_len, framed.len() - 1);
    let body = &framed[buf.cursor()..];
    assert!(body.len() < data.len());
    assert_eq!(io.unpack_packet(header, body), Some(data.clone()));
    assert_eq!(io.unpack_packet(header, &[1, 2, 3]), None);
    let plain = PacketHeader { raw_len: 3, data_len: 3, compressed: false };
    assert_eq!(io.unpack_packet(plain, &[4, 5, 6]), Some(vec![4, 5, 6]));
}

#[test]
fn compressed_frame_fields() {
    assert_eq!(compressed_frame(3, &[9, 9]), Some(vec![3, 3, 9, 9]));
    assert_eq!(compressed_frame(300, &[1]), Some(vec![3, 0xAC, 0x02, 1]));
    assert_eq!(check_inflated(Some(vec![1, 2]), 2), Some(vec![1, 2]));
    assert_eq!(check_inflated(Some(vec![1]), 2), None);
    assert_eq!(check_inflated(None, 0), None);
}
