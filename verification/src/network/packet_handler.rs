use vstd::prelude::*;
use vstd::utf8::encode_utf8;
use crate::util::ioutil::{
    ByteBuffer, splice, varint_bytes, varint_len, varint_value, be_bytes_i64, be_uint, text_of,
    lemma_splice_concat, lemma_varint_len_at, lemma_varint_len_longer,
};
use crate::network::connection::ConnectionState;

verus! {

/// The protocol version this server speaks.
pub const PROTOCOL_VERSION: i32 = 578;

/// The identifier of the legacy server-list ping, which has no length prefix.
pub const LEGACY_PING_PACKET_ID: i32 = 0xFE;

/// A packet that the connection handlers forward to the server thread.
pub enum ServerBoundPacket {
    LoginSuccessServer { uuid: String, username: String },
    LegacyPing,
    StatusRequest,
}

/// A server-bound packet together with the id of the client that sent it.
pub struct WrappedServerPacket {
    pub sender: usize,
    pub packet: ServerBoundPacket,
}

impl WrappedServerPacket {
    #[inline]
    pub fn new(sender: usize, packet: ServerBoundPacket) -> (r: Self)
        ensures
            r.sender == sender,
            r.packet == packet,
    {
        WrappedServerPacket { sender, packet }
    }
}

/// A packet sent to a client.
pub enum ClientBoundPacket {
    StatusResponse { json_response: String },
    Pong { payload: i64 },
    Disconnect { reason: String },
    EncryptionRequest {
        server_id: String,
        pub_key_len: i32,
        pub_key: Vec<u8>,
        verify_token_len: i32,
        verify_token: Vec<u8>,
    },
    LoginSuccess { uuid: String, username: String },
    SetCompression { threshold: i32 },
    LoginPluginRequest { message_id: i32, channel: String, data: Vec<u8> },
}

/// The bytes of a variable-length integer field.
pub open spec fn varint_field(v: i32) -> Seq<u8> {
    varint_bytes(v as nat)
}

/// The bytes of a string field: its UTF-8 length as a variable-length integer, then its UTF-8.
pub open spec fn string_field(s: Seq<char>) -> Seq<u8> {
    varint_bytes(encode_utf8(s).len()) + encode_utf8(s)
}

/// Whether a string fits a string field.
pub open spec fn string_fits(s: Seq<char>) -> bool {
    encode_utf8(s).len() <= i32::MAX
}

/// Whether every field of `packet` can be written: integers written as variable-length values
/// are not negative and every string fits.
pub open spec fn packet_writable(packet: ClientBoundPacket) -> bool {
    match packet {
        ClientBoundPacket::StatusResponse { json_response } => string_fits(json_response@),
        ClientBoundPacket::Pong { .. } => true,
        ClientBoundPacket::Disconnect { reason } => string_fits(reason@),
        ClientBoundPacket::EncryptionRequest {
            server_id,
            pub_key_len,
            verify_token_len,
            ..
        } => string_fits(server_id@) && pub_key_len >= 0 && verify_token_len >= 0,
        ClientBoundPacket::LoginSuccess { uuid, username } => string_fits(uuid@) && string_fits(
            username@,
        ),
        ClientBoundPacket::SetCompression { threshold } => threshold >= 0,
        ClientBoundPacket::LoginPluginRequest { message_id, channel, .. } => message_id >= 0
            && string_fits(channel@),
    }
}

/// The bytes `serialize` writes for `packet`: its id followed by its fields.
pub open spec fn packet_bytes(packet: ClientBoundPacket) -> Seq<u8> {
    match packet {
        ClientBoundPacket::StatusResponse { json_response } => varint_field(0) + string_field(
            json_response@,
        ),
        ClientBoundPacket::Pong { payload } => varint_field(1) + be_bytes_i64(payload),
        ClientBoundPacket::Disconnect { reason } => varint_field(0) + string_field(reason@),
        ClientBoundPacket::EncryptionRequest {
            server_id,
            pub_key_len,
            pub_key,
            verify_token_len,
            verify_token,
        } => varint_field(1) + string_field(server_id@) + varint_field(pub_key_len) + pub_key@
            + varint_field(verify_token_len) + verify_token@,
        ClientBoundPacket::LoginSuccess { uuid, username } => varint_field(2) + string_field(
            uuid@,
        ) + string_field(username@),
        ClientBoundPacket::SetCompression { threshold } => varint_field(3) + varint_field(
            threshold,
        ),
        ClientBoundPacket::LoginPluginRequest { message_id, channel, data } => varint_field(4)
            + varint_field(message_id) + string_field(channel@) + data@,
    }
}

/// Writes a variable-length integer field, keeping the buffer's contents a splice of `run`
/// and the field at `start`.
fn put_varint(buffer: &mut ByteBuffer, value: i32, Ghost(s): Ghost<Seq<u8>>, Ghost(start): Ghost<int>, Ghost(run): Ghost<Seq<u8>>, Ghost(total): Ghost<nat>)
    requires
        value >= 0,
        0 <= start,
        old(buffer).contents() == splice(s, start, run),
        old(buffer).position() == start + run.len(),
        start + run.len() + varint_field(value).len() <= total,
        total <= s.len(),
    ensures
        final(buffer).contents() == splice(s, start, run + varint_field(value)),
        final(buffer).position() == start + run.len() + varint_field(value).len(),
{
    proof {
        lemma_splice_concat(s, start, run, varint_field(value));
    }
    buffer.write_varint(value);
}

/// Writes a string field in the same manner as `put_varint`.
fn put_string(buffer: &mut ByteBuffer, value: &String, Ghost(s): Ghost<Seq<u8>>, Ghost(start): Ghost<int>, Ghost(run): Ghost<Seq<u8>>, Ghost(total): Ghost<nat>)
    requires
        string_fits(value@),
        0 <= start,
        old(buffer).contents() == splice(s, start, run),
        old(buffer).position() == start + run.len(),
        start + run.len() + string_field(value@).len() <= total,
        total <= s.len(),
    ensures
        final(buffer).contents() == splice(s, start, run + string_field(value@)),
        final(buffer).position() == start + run.len() + string_field(value@).len(),
{
    proof {
        lemma_splice_concat(s, start, run, string_field(value@));
        assert(run + string_field(value@) =~= run + varint_bytes(encode_utf8(value@).len())
            + encode_utf8(value@));
    }
    buffer.write_string(value);
}

/// Writes raw bytes in the same manner as `put_varint`.
fn put_bytes(buffer: &mut ByteBuffer, value: &[u8], Ghost(s): Ghost<Seq<u8>>, Ghost(start): Ghost<int>, Ghost(run): Ghost<Seq<u8>>, Ghost(total): Ghost<nat>)
    requires
        0 <= start,
        old(buffer).contents() == splice(s, start, run),
        old(buffer).position() == start + run.len(),
        start + run.len() + value@.len() <= total,
        total <= s.len(),
    ensures
        final(buffer).contents() == splice(s, start, run + value@),
        final(buffer).position() == start + run.len() + value@.len(),
{
    proof {
        lemma_splice_concat(s, start, run, value@);
    }
    buffer.write_bytes(value);
}

/// Writes `packet`, its id first, at the cursor of `buffer`.
pub fn serialize(packet: &ClientBoundPacket, buffer: &mut ByteBuffer)
    requires
        packet_writable(*packet),
        old(buffer).position() + packet_bytes(*packet).len() <= old(buffer).contents().len(),
    ensures
        final(buffer).contents() == splice(
            old(buffer).contents(),
            old(buffer).position() as int,
            packet_bytes(*packet),
        ),
        final(buffer).position() == old(buffer).position() + packet_bytes(*packet).len(),
{
    let ghost s = buffer.contents();
    let ghost p = buffer.position() as int;
    let ghost total = (p + packet_bytes(*packet).len()) as nat;
    proof {
        assert(s.take(p) + Seq::<u8>::empty() + s.skip(p) =~= s);
    }
    let ghost e = Seq::<u8>::empty();
    match packet {
        ClientBoundPacket::StatusResponse { json_response } => {
            put_varint(buffer, 0, Ghost(s), Ghost(p), Ghost(e), Ghost(total));
            put_string(buffer, json_response, Ghost(s), Ghost(p), Ghost(e + varint_field(0)), Ghost(total));
        },
        ClientBoundPacket::Pong { payload } => {
            put_varint(buffer, 1, Ghost(s), Ghost(p), Ghost(e), Ghost(total));
            proof {
                lemma_splice_concat(s, p, e + varint_field(1), be_bytes_i64(*payload));
            }
            buffer.write_i64(*payload);
        },
        ClientBoundPacket::Disconnect { reason } => {
            put_varint(buffer, 0, Ghost(s), Ghost(p), Ghost(e), Ghost(total));
            put_string(buffer, reason, Ghost(s), Ghost(p), Ghost(e + varint_field(0)), Ghost(total));
        },
        ClientBoundPacket::EncryptionRequest {
            server_id,
            pub_key_len,
            pub_key,
            verify_token_len,
            verify_token,
        } => {
            let ghost r0 = e + varint_field(1);
            let ghost r1 = r0 + string_field(server_id@);
            let ghost r2 = r1 + varint_field(*pub_key_len);
            let ghost r3 = r2 + pub_key@;
            let ghost r4 = r3 + varint_field(*verify_token_len);
            put_varint(buffer, 1, Ghost(s), Ghost(p), Ghost(e), Ghost(total));
            put_string(buffer, server_id, Ghost(s), Ghost(p), Ghost(r0), Ghost(total));
            put_varint(buffer, *pub_key_len, Ghost(s), Ghost(p), Ghost(r1), Ghost(total));
            put_bytes(buffer, pub_key.as_slice(), Ghost(s), Ghost(p), Ghost(r2), Ghost(total));
            put_varint(buffer, *verify_token_len, Ghost(s), Ghost(p), Ghost(r3), Ghost(total));
            put_bytes(buffer, verify_token.as_slice(), Ghost(s), Ghost(p), Ghost(r4), Ghost(total));
        },
        ClientBoundPacket::LoginSuccess { uuid, username } => {
            put_varint(buffer, 2, Ghost(s), Ghost(p), Ghost(e), Ghost(total));
            put_string(buffer, uuid, Ghost(s), Ghost(p), Ghost(e + varint_field(2)), Ghost(total));
            put_string(buffer, username, Ghost(s), Ghost(p), Ghost(e + varint_field(2) + string_field(uuid@)), Ghost(total));
        },
        ClientBoundPacket::SetCompression { threshold } => {
            put_varint(buffer, 3, Ghost(s), Ghost(p), Ghost(e), Ghost(total));
            put_varint(buffer, *threshold, Ghost(s), Ghost(p), Ghost(e + varint_field(3)), Ghost(total));
        },
        ClientBoundPacket::LoginPluginRequest { message_id, channel, data } => {
            let ghost r0 = e + varint_field(4);
            let ghost r1 = r0 + varint_field(*message_id);
            let ghost r2 = r1 + string_field(channel@);
            put_varint(buffer, 4, Ghost(s), Ghost(p), Ghost(e), Ghost(total));
            put_varint(buffer, *message_id, Ghost(s), Ghost(p), Ghost(r0), Ghost(total));
            put_string(buffer, channel, Ghost(s), Ghost(p), Ghost(r1), Ghost(total));
            put_bytes(buffer, data.as_slice(), Ghost(s), Ghost(p), Ghost(r2), Ghost(total));
        },
    }
    proof {
        assert(e + packet_bytes(*packet) =~= packet_bytes(*packet));
    }
}

/// A variable-length value of at most five bytes at `i` in `s`, and the index after it.
pub open spec fn sp_varint(s: Seq<u8>, i: int) -> Option<(i32, int)> {
    if 0 <= i <= s.len() {
        match varint_len(s.skip(i)) {
            Some(n) => if n <= 5 {
                Some((varint_value(s.skip(i), n) as i32, i + n))
            } else {
                None
            },
            None => None,
        }
    } else {
        None
    }
}

/// The `len` bytes at `i` in `s`, and the index after them.
pub open spec fn sp_bytes(s: Seq<u8>, i: int, len: int) -> Option<(Seq<u8>, int)> {
    if 0 <= i && 0 <= len && i + len <= s.len() {
        Some((s.subrange(i, i + len), i + len))
    } else {
        None
    }
}

/// The string at `i` in `s` (a byte count, then that many bytes of UTF-8; text that is not
/// UTF-8 reads as empty), and the index after it.
pub open spec fn sp_string(s: Seq<u8>, i: int) -> Option<(Seq<char>, int)> {
    match sp_varint(s, i) {
        Some((count, j)) => match sp_bytes(s, j, count as int) {
            Some((b, k)) => Some((text_of(b), k)),
            None => None,
        },
        None => None,
    }
}

/// What a received packet asks of its connection.
pub enum PacketEvent {
    /// A handshake naming a protocol version and the state to move to.
    Handshake { version: i32, next_state: i32 },
    /// The legacy server-list ping, to be forwarded to the server.
    LegacyPing,
    /// A status request, to be forwarded to the server.
    StatusRequest,
    /// A ping, to be answered with a pong carrying the same payload.
    Ping { payload: i64 },
    /// The start of a login.
    LoginStart { name: String },
    /// The client's answer to an encryption request.
    EncryptionResponse { shared_secret: Vec<u8>, verify_token: Vec<u8> },
    /// The client's answer to a login plugin request.
    LoginPluginResponse { message_id: i32, successful: bool, data: Vec<u8> },
    /// A packet id that the connection's state does not know, with the buffer's length.
    Invalid { id: i32, len: usize },
    /// A packet in a state whose packets are not handled here.
    Ignored,
}

/// Whether the packet at `pos` in `s`, received in `state`, decodes to `ev` and ends at `end`.
/// `packet_len` is the length of the whole packet, which bounds a trailing data field.
pub open spec fn decodes(
    state: ConnectionState,
    s: Seq<u8>,
    pos: int,
    packet_len: int,
    ev: PacketEvent,
    end: int,
) -> bool {
    match sp_varint(s, pos) {
        None => false,
        Some((id, i)) => match state {
            ConnectionState::Handshake => if id == 0 {
                match sp_varint(s, i) {
                    Some((version, j)) => match sp_string(s, j) {
                        Some((_, k)) => k + 2 <= s.len() && match sp_varint(s, k + 2) {
                            Some((next_state, m)) => ev == PacketEvent::Handshake {
                                version,
                                next_state,
                            } && end == m,
                            None => false,
                        },
                        None => false,
                    },
                    None => false,
                }
            } else if id == LEGACY_PING_PACKET_ID {
                i <= s.len() && ev == PacketEvent::LegacyPing && end == s.len()
            } else {
                ev == PacketEvent::Invalid { id, len: s.len() as usize } && end == i
            },
            ConnectionState::Status => if id == 0 {
                ev == PacketEvent::StatusRequest && end == i
            } else if id == 1 {
                i + 8 <= s.len() && ev == PacketEvent::Ping {
                    payload: be_uint(s.subrange(i, i + 8)) as i64,
                } && end == i + 8
            } else {
                ev == PacketEvent::Invalid { id, len: s.len() as usize } && end == i
            },
            ConnectionState::Login => if id == 0 {
                match sp_string(s, i) {
                    Some((text, k)) => (ev matches PacketEvent::LoginStart { name } && name@
                        == text) && end == k,
                    None => false,
                }
            } else if id == 1 {
                match sp_varint(s, i) {
                    Some((l1, j)) => match sp_bytes(s, j, l1 as int) {
                        Some((secret, k)) => match sp_varint(s, k) {
                            Some((l2, m)) => match sp_bytes(s, m, l2 as int) {
                                Some((token, e)) => (ev matches PacketEvent::EncryptionResponse {
                                    shared_secret,
                                    verify_token,
                                } && shared_secret@ == secret && verify_token@ == token) && end
                                    == e,
                                None => false,
                            },
                            None => false,
                        },
                        None => false,
                    },
                    None => false,
                }
            } else if id == 2 {
                match sp_varint(s, i) {
                    Some((message_id, j)) => j < s.len() && match sp_bytes(
                        s,
                        j + 1,
                        packet_len - (j + 1),
                    ) {
                        Some((bytes, e)) => (ev matches PacketEvent::LoginPluginResponse {
                            message_id: mid,
                            successful,
                            data,
                        } && mid == message_id && successful == (s[j] != 0) && data@ == bytes)
                            && end == e,
                        None => false,
                    },
                    None => false,
                }
            } else {
                ev == PacketEvent::Invalid { id, len: s.len() as usize } && end == i
            },
            _ => ev == PacketEvent::Ignored && end == i,
        },
    }
}

/// Whether a variable-length value of at most five bytes starts at the cursor.
fn varint_ready(buffer: &ByteBuffer) -> (b: bool)
    ensures
        b == (sp_varint(buffer.contents(), buffer.position() as int) is Some),
{
    let len = buffer.len();
    let pos = buffer.cursor();
    if pos > len {
        return false;
    }
    let ghost s = buffer.contents();
    let ghost t = s.skip(pos as int);
    let mut k: usize = 0;
    while k < 5
        invariant
            pos <= len,
            len == s.len(),
            s == buffer.contents(),
            t == s.skip(pos as int),
            pos == buffer.position(),
            0 <= k <= 5,
            pos + k <= len,
            forall|j: int| 0 <= j < k ==> t[j] >= 128,
        decreases 5 - k,
    {
        if pos + k >= len {
            proof {
                lemma_varint_len_longer(t, k as int);
                if varint_len(t) is Some {
                    lemma_varint_len_prefix_bound(t);
                }
            }
            return false;
        }
        let b = buffer.get(pos + k);
        assert(t[k as int] == b);
        if b < 128 {
            proof {
                lemma_varint_len_at(t, k as int);
            }
            return true;
        }
        k += 1;
    }
    proof {
        lemma_varint_len_longer(t, 5);
    }
    false
}

/// A variable-length value never runs past the end of its bytes.
proof fn lemma_varint_len_prefix_bound(t: Seq<u8>)
    requires
        varint_len(t) is Some,
    ensures
        varint_len(t).unwrap() <= t.len(),
    decreases t.len(),
{
    if t[0] >= 128 {
        lemma_varint_len_prefix_bound(t.drop_first());
    }
}

/// Reads a variable-length value of at most five bytes, if one starts at the cursor.
pub(crate) fn take_varint(buffer: &mut ByteBuffer) -> (r: Option<i32>)
    ensures
        final(buffer).contents() == old(buffer).contents(),
        match sp_varint(old(buffer).contents(), old(buffer).position() as int) {
            Some((v, e)) => r == Some(v) && final(buffer).position() == e,
            None => r is None,
        },
        r is Some ==> final(buffer).position() <= final(buffer).contents().len(),
{
    if varint_ready(buffer) {
        proof {
            lemma_varint_len_prefix_bound(buffer.contents().skip(buffer.position() as int));
        }
        Some(buffer.read_varint())
    } else {
        None
    }
}

/// Reads `len` bytes, if they are there.
fn take_bytes(buffer: &mut ByteBuffer, len: i128) -> (r: Option<Vec<u8>>)
    ensures
        final(buffer).contents() == old(buffer).contents(),
        match sp_bytes(old(buffer).contents(), old(buffer).position() as int, len as int) {
            Some((b, e)) => r matches Some(v) && v@ == b && final(buffer).position() == e,
            None => r is None,
        },
{
    let n = buffer.len();
    let pos = buffer.cursor();
    if len < 0 || pos > n || len > ((n - pos) as i128) {
        return None;
    }
    let bytes = buffer.read_byte_array(len as usize);
    Some(bytes)
}

/// Reads a string, if one is there.
fn take_string(buffer: &mut ByteBuffer) -> (r: Option<String>)
    ensures
        final(buffer).contents() == old(buffer).contents(),
        match sp_string(old(buffer).contents(), old(buffer).position() as int) {
            Some((text, e)) => r matches Some(v) && v@ == text && final(buffer).position() == e,
            None => r is None,
        },
{
    let ghost s = buffer.contents();
    let ghost p = buffer.position() as int;
    if !varint_ready(buffer) {
        return None;
    }
    let n = buffer.len();
    let save = buffer.cursor();
    proof {
        lemma_varint_len_prefix_bound(buffer.contents().skip(buffer.position() as int));
    }
    let count = buffer.read_varint();
    let pos = buffer.cursor();
    if count < 0 || (count as u64) > ((n - pos) as u64) {
        return None;
    }
    buffer.set_cursor(save);
    let text = buffer.read_string();
    Some(text)
}

/// Decodes the packet at the cursor of `buffer`, received while the connection was in `state`.
/// `packet_len` is the length of the whole packet. `None` means the packet is malformed: a
/// field runs past the end of the buffer, a length is negative, or a variable-length value is
/// longer than five bytes.
pub fn decode_packet(state: ConnectionState, buffer: &mut ByteBuffer, packet_len: usize) -> (r:
    Option<PacketEvent>)
    ensures
        final(buffer).contents() == old(buffer).contents(),
        r matches Some(ev) ==> decodes(
            state,
            old(buffer).contents(),
            old(buffer).position() as int,
            packet_len as int,
            ev,
            final(buffer).position() as int,
        ),
        r is None ==> forall|ev: PacketEvent, end: int|
            !decodes(
                state,
                old(buffer).contents(),
                old(buffer).position() as int,
                packet_len as int,
                ev,
                end,
            ),
{
    let ghost s = buffer.contents();
    let ghost p = buffer.position() as int;
    let id = match take_varint(buffer) {
        Some(id) => id,
        None => return None,
    };
    let n = buffer.len();
    match state {
        ConnectionState::Handshake => {
            if id == 0 {
                let version = match take_varint(buffer) {
                    Some(v) => v,
                    None => return None,
                };
                match take_string(buffer) {
                    Some(_) => {},
                    None => return None,
                }
                if buffer.cursor() > n || n - buffer.cursor() < 2 {
                    return None;
                }
                buffer.read_u16();
                let next_state = match take_varint(buffer) {
                    Some(v) => v,
                    None => return None,
                };
                Some(PacketEvent::Handshake { version, next_state })
            } else if id == LEGACY_PING_PACKET_ID {
                let rest = buffer.remaining();
                buffer.read_byte_array(rest);
                Some(PacketEvent::LegacyPing)
            } else {
                Some(PacketEvent::Invalid { id, len: n })
            }
        },
        ConnectionState::Status => {
            if id == 0 {
                Some(PacketEvent::StatusRequest)
            } else if id == 1 {
                if buffer.cursor() > n || n - buffer.cursor() < 8 {
                    return None;
                }
                let payload = buffer.read_i64();
                Some(PacketEvent::Ping { payload })
            } else {
                Some(PacketEvent::Invalid { id, len: n })
            }
        },
        ConnectionState::Login => {
            if id == 0 {
                match take_string(buffer) {
                    Some(name) => Some(PacketEvent::LoginStart { name }),
                    None => None,
                }
            } else if id == 1 {
                let l1 = match take_varint(buffer) {
                    Some(v) => v,
                    None => return None,
                };
                let shared_secret = match take_bytes(buffer, l1 as i128) {
                    Some(v) => v,
                    None => return None,
                };
                let l2 = match take_varint(buffer) {
                    Some(v) => v,
                    None => return None,
                };
                let verify_token = match take_bytes(buffer, l2 as i128) {
                    Some(v) => v,
                    None => return None,
                };
                Some(PacketEvent::EncryptionResponse { shared_secret, verify_token })
            } else if id == 2 {
                let message_id = match take_varint(buffer) {
                    Some(v) => v,
                    None => return None,
                };
                if buffer.cursor() >= n {
                    return None;
                }
                let successful = buffer.read_bool();
                let c = buffer.cursor();
                let data_len: i128 = packet_len as i128 - c as i128;
                let data = match take_bytes(buffer, data_len) {
                    Some(v) => v,
                    None => return None,
                };
                Some(PacketEvent::LoginPluginResponse { message_id, successful, data })
            } else {
                Some(PacketEvent::Invalid { id, len: n })
            }
        },
        _ => Some(PacketEvent::Ignored),
    }
}

/// The state a handshake moves a connection to: a client speaking another protocol version is
/// disconnected, a next state of `1` asks for the status and `2` for a login, and anything else
/// leaves the state as it was.
pub fn handshake_state(current: ConnectionState, version: i32, next_state: i32) -> (r:
    ConnectionState)
    ensures
        version != PROTOCOL_VERSION ==> r == ConnectionState::Disconnected,
        version == PROTOCOL_VERSION && next_state == 1 ==> r == ConnectionState::Status,
        version == PROTOCOL_VERSION && next_state == 2 ==> r == ConnectionState::Login,
        version == PROTOCOL_VERSION && next_state != 1 && next_state != 2 ==> r == current,
{
    if version != PROTOCOL_VERSION {
        ConnectionState::Disconnected
    } else if next_state == 1 {
        ConnectionState::Status
    } else if next_state == 2 {
        ConnectionState::Login
    } else {
        current
    }
}

/// Every client-bound packet starts with its protocol id, one byte: a status response and a
/// disconnect 0, a pong and an encryption request 1, a login success 2, a compression setting 3
/// and a login plugin request 4. A status response is then its JSON as a string field (its
/// UTF-8 length as a variable-length number, then the UTF-8), a pong its payload as eight
/// big-endian bytes.
pub proof fn law_packet_ids(p: ClientBoundPacket)
    ensures
        packet_bytes(p).len() > 0,
        packet_bytes(p)[0] == match p {
            ClientBoundPacket::StatusResponse { .. } => 0u8,
            ClientBoundPacket::Pong { .. } => 1u8,
            ClientBoundPacket::Disconnect { .. } => 0u8,
            ClientBoundPacket::EncryptionRequest { .. } => 1u8,
            ClientBoundPacket::LoginSuccess { .. } => 2u8,
            ClientBoundPacket::SetCompression { .. } => 3u8,
            ClientBoundPacket::LoginPluginRequest { .. } => 4u8,
        },
        p matches ClientBoundPacket::StatusResponse { json_response } ==> packet_bytes(p) == seq![0u8]
            + varint_bytes(encode_utf8(json_response@).len()) + encode_utf8(json_response@),
        p matches ClientBoundPacket::Pong { payload } ==> packet_bytes(p) == seq![1u8]
            + be_bytes_i64(payload),
{
    reveal_with_fuel(varint_bytes, 1);
    assert(varint_field(0) == seq![0u8]);
    assert(varint_field(1) == seq![1u8]);
    assert(varint_field(2) == seq![2u8]);
    assert(varint_field(3) == seq![3u8]);
    assert(varint_field(4) == seq![4u8]);
    match p {
        ClientBoundPacket::StatusResponse { json_response } => {
            assert(packet_bytes(p) =~= seq![0u8] + varint_bytes(encode_utf8(json_response@).len())
                + encode_utf8(json_response@));
        },
        _ => {},
    }
}

} // verus!
