use vstd::prelude::*;
use vstd::string::StringExecFns;
use crate::mc_datatype_helpers::write_varint;
use crate::util::ioutil::{splice, varint_bytes, lemma_splice_concat, lemma_varint_bytes_len_pub};
use vstd::string::StrSliceExecFns;
use crate::nbt::snbt::{decimal, decimal_string};
use crate::network::packet_handler::PROTOCOL_VERSION;

verus! {

/// The game version the server reports.
pub struct McVersion {
    pub name: String,
    pub protocol: i32,
}

/// The player counts the server reports.
pub struct ServerPlayersObject {
    pub max: u32,
    pub online: i32,
    pub sample: Vec<String>,
}

/// The description the server reports.
pub struct ChatObject {
    pub text: String,
}

/// The answer to a status request.
pub struct ServerStatusResponse {
    pub version: McVersion,
    pub players: ServerPlayersObject,
    pub description: ChatObject,
}

/// The status of a server with room for `max_players`, `online` players connected and the
/// message of the day `motd`.
pub fn load_server_status(max_players: u16, online: usize, motd: &String) -> (r:
    ServerStatusResponse)
    ensures
        r.version.name@ == "Redstone 1.15.2"@,
        r.version.protocol == 578,
        r.players.max == max_players,
        r.players.online == online as i32,
        r.players.sample@.len() == 0,
        r.description.text@ == motd@,
{
    ServerStatusResponse {
        version: McVersion { name: String::from_str("Redstone 1.15.2"), protocol: 578 },
        players: ServerPlayersObject {
            max: max_players as u32,
            online: online as i32,
            sample: Vec::new(),
        },
        description: ChatObject { text: motd.clone() },
    }
}

/// The number of seven-bit groups in `v`: none for zero.
pub open spec fn group_count(v: nat) -> nat
    decreases v,
{
    if v == 0 {
        0
    } else {
        1 + group_count(v / 128)
    }
}

/// The bytes of a status answer carrying `json`: the packet length, the packet id `0`, the
/// length of the text and the text.
pub open spec fn status_packet(json: Seq<u8>) -> Seq<u8> {
    varint_bytes(1 + group_count(json.len()) + json.len()) + seq![0u8] + varint_bytes(json.len())
        + json
}

/// Frames the status answer `json` in a buffer of 1024 bytes, zero after the packet.
pub fn status_frame(json: &[u8]) -> (frame: Vec<u8>)
    requires
        json@.len() <= i32::MAX,
        1 + group_count(json@.len()) + json@.len() <= i32::MAX,
        status_packet(json@).len() <= 1024,
    ensures
        frame@ == splice(Seq::new(1024, |i: int| 0u8), 0, status_packet(json@)),
{
    let len: i32 = json.len() as i32;
    let mut json_len_bytes: i32 = 0;
    let mut len_copy = len;
    while len_copy != 0
        invariant
            len_copy >= 0,
            len >= 0,
            json_len_bytes + group_count(len_copy as nat) == group_count(len as nat),
            json_len_bytes >= 0,
            group_count(len as nat) <= i32::MAX,
        decreases len_copy,
    {
        let ghost v = len_copy;
        len_copy >>= 7i32;
        assert(len_copy == v / 128) by (bit_vector)
            requires v >= 0, len_copy == v >> 7i32;
        json_len_bytes += 1;
    }
    let mut frame: Vec<u8> = vec![0u8; 1024];
    let ghost zeros = frame@;
    assert(zeros =~= Seq::new(1024, |i: int| 0u8));
    let ghost a = varint_bytes((1 + json_len_bytes + len) as nat);
    let ghost b = seq![0u8];
    let ghost c = varint_bytes(len as nat);
    proof {
        assert(b =~= varint_bytes(0));
        assert(splice(zeros, 0, Seq::<u8>::empty()) =~= zeros);
        lemma_splice_concat(zeros, 0, Seq::<u8>::empty(), a);
    }
    let mut off = write_varint(1 + json_len_bytes + len, frame.as_mut_slice(), 0);
    proof {
        lemma_splice_concat(zeros, 0, a, b);
        assert(Seq::<u8>::empty() + a =~= a);
    }
    off += write_varint(0, frame.as_mut_slice(), off);
    proof {
        lemma_splice_concat(zeros, 0, a + b, c);
    }
    off += write_varint(len, frame.as_mut_slice(), off);
    let ghost prefix = a + b + c;
    let mut i: usize = 0;
    while i < json.len()
        invariant
            frame@.len() == 1024,
            zeros.len() == 1024,
            off == prefix.len(),
            prefix.len() + json@.len() <= 1024,
            0 <= i <= json@.len(),
            frame@ == splice(zeros, 0, prefix + json@.take(i as int)),
        decreases json@.len() - i,
    {
        proof {
            crate::util::ioutil::lemma_splice_push(zeros, 0, prefix + json@.take(i as int), json@[i as int]);
            assert((prefix + json@.take(i as int)).push(json@[i as int]) =~= prefix + json@.take(i + 1));
        }
        frame.set(off + i, json[i]);
        i += 1;
    }
    assert(json@.take(json@.len() as int) =~= json@);
    frame
}

/// The UTF-16 code units of `c`: one below `0x10000`, else a surrogate pair.
pub open spec fn char_units(c: char) -> Seq<u16> {
    let v = c as u32;
    if v < 0x10000 {
        seq![v as u16]
    } else {
        let w = (v - 0x10000) as u32;
        seq![(0xD800 + w / 0x400) as u16, (0xDC00 + w % 0x400) as u16]
    }
}

/// The UTF-16 code units of `s`.
pub open spec fn utf16_of(s: Seq<char>) -> Seq<u16>
    decreases s.len(),
{
    if s.len() == 0 {
        Seq::empty()
    } else {
        utf16_of(s.drop_last()) + char_units(s.last())
    }
}

/// The big-endian bytes of the code units `u`.
pub open spec fn units_bytes(u: Seq<u16>) -> Seq<u8>
    decreases u.len(),
{
    if u.len() == 0 {
        Seq::empty()
    } else {
        units_bytes(u.drop_last()) + seq![(u.last() / 256) as u8, (u.last() % 256) as u8]
    }
}

/// The text of the answer to a legacy ping, as code units: the marker `§1`, then, each after a
/// zero unit, the protocol version's digits in reverse order, the game version, the message of
/// the day, the player count (zero) and the player limit.
pub open spec fn legacy_units(version: Seq<char>, motd: Seq<char>, max_players: u16) -> Seq<u16> {
    seq![0xA7u16, 0x31u16, 0u16] + utf16_of(decimal(PROTOCOL_VERSION as u16 as nat).reverse())
        + seq![0u16] + utf16_of(version) + seq![0u16] + utf16_of(motd) + seq![0u16] + utf16_of(
        "0"@,
    ) + seq![0u16] + utf16_of(decimal(max_players as nat))
}

/// The answer to a legacy ping: `0xFF`, the number of code units as a big-endian 16-bit
/// number (cut to 16 bits), then the units, big-endian.
pub open spec fn legacy_response(version: Seq<char>, motd: Seq<char>, max_players: u16) -> Seq<u8> {
    let u = legacy_units(version, motd, max_players);
    seq![0xFFu8] + units_bytes(seq![u.len() as u16]) + units_bytes(u)
}

/// Appends the UTF-16 code units of `s` to `out`, the characters in reverse order when
/// `backwards`.
fn push_utf16(out: &mut Vec<u16>, s: &str, backwards: bool)
    requires
        old(out)@.len() + 2 * s@.len() <= usize::MAX,
    ensures
        final(out)@ == old(out)@ + utf16_of(if backwards { s@.reverse() } else { s@ }),
        final(out)@.len() <= old(out)@.len() + 2 * s@.len(),
{
    let n = s.unicode_len();
    let ghost t = if backwards { s@.reverse() } else { s@ };
    assert(t.len() == n);
    let mut i: usize = 0;
    assert(t.take(0) =~= Seq::<char>::empty());
    while i < n
        invariant
            n == s@.len(),
            t == (if backwards { s@.reverse() } else { s@ }),
            t.len() == n,
            0 <= i <= n,
            out@ == old(out)@ + utf16_of(t.take(i as int)),
            out@.len() <= old(out)@.len() + 2 * i,
            old(out)@.len() + 2 * n <= usize::MAX,
        decreases n - i,
    {
        let c = if backwards {
            s.get_char(n - 1 - i)
        } else {
            s.get_char(i)
        };
        assert(c == t[i as int]);
        let v = c as u32;
        assert(t.take(i + 1).drop_last() =~= t.take(i as int));
        if v < 0x10000 {
            out.push(v as u16);
            assert(out@ =~= old(out)@ + utf16_of(t.take(i + 1)));
        } else {
            let w = v - 0x10000;
            out.push((0xD800 + w / 0x400) as u16);
            out.push((0xDC00 + w % 0x400) as u16);
            assert(out@ =~= old(out)@ + utf16_of(t.take(i + 1)));
        }
        i += 1;
    }
    assert(t.take(n as int) =~= t);
}

/// Appends the big-endian bytes of the units `u` to `out`.
fn push_units(out: &mut Vec<u8>, u: &Vec<u16>)
    ensures
        final(out)@ == old(out)@ + units_bytes(u@),
{
    let mut i: usize = 0;
    assert(u@.take(0) =~= Seq::<u16>::empty());
    while i < u.len()
        invariant
            0 <= i <= u@.len(),
            out@ == old(out)@ + units_bytes(u@.take(i as int)),
        decreases u@.len() - i,
    {
        assert(u@.take(i + 1).drop_last() =~= u@.take(i as int));
        out.push((u[i] / 256) as u8);
        out.push((u[i] % 256) as u8);
        assert(out@ =~= old(out)@ + units_bytes(u@.take(i + 1)));
        i += 1;
    }
    assert(u@.take(u@.len() as int) =~= u@);
}

/// The answer to a legacy ping for a server of game version `version` with the message of the
/// day `motd` and room for `max_players`.
pub fn legacy_ping_response(version: &str, motd: &str, max_players: u16) -> (r: Vec<u8>)
    requires
        version@.len() + motd@.len() <= 0x1000_0000,
    ensures
        r@ == legacy_response(version@, motd@, max_players),
{
    let protocol = decimal_string(PROTOCOL_VERSION as u16 as usize);
    let players = decimal_string(max_players as usize);
    proof {
        lemma_decimal_short(PROTOCOL_VERSION as u16 as nat);
        lemma_decimal_short(max_players as nat);
        reveal_strlit("0");
    }
    let mut u: Vec<u16> = Vec::new();
    u.push(0xA7u16);
    u.push(0x31u16);
    u.push(0u16);
    push_utf16(&mut u, protocol.as_str(), true);
    u.push(0u16);
    push_utf16(&mut u, version, false);
    u.push(0u16);
    push_utf16(&mut u, motd, false);
    u.push(0u16);
    push_utf16(&mut u, "0", false);
    u.push(0u16);
    push_utf16(&mut u, players.as_str(), false);
    assert(u@ =~= legacy_units(version@, motd@, max_players));
    let mut out: Vec<u8> = Vec::new();
    out.push(0xFFu8);
    let mut count: Vec<u16> = Vec::new();
    count.push(u.len() as u16);
    push_units(&mut out, &count);
    push_units(&mut out, &u);
    out
}

/// The decimal text of a 16-bit number has at most five digits.
proof fn lemma_decimal_short(n: nat)
    requires
        n < 0x10000,
    ensures
        decimal(n).len() <= 5,
{
    reveal_with_fuel(decimal, 6);
}

} // verus!
