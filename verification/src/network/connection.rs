use vstd::prelude::*;
use crate::util::ioutil::{ByteBuffer, varint_bytes, splice};
use crate::network::packet_handler::sp_varint;
use std::io::{Read, Write};

verus! {

/// The zlib stream flate2 makes of `data` at the default compression level.
pub uninterp spec fn zlib_deflated(data: Seq<u8>) -> Seq<u8>;

/// What flate2's zlib decoder yields from `data`, read up to `len` bytes; `None` when the
/// stream is corrupt.
pub uninterp spec fn zlib_inflated(data: Seq<u8>, len: nat) -> Option<Seq<u8>>;

/// `flate2::write::ZlibEncoder` at `Compression::default()`, fed `data` into a vector and
/// finished: the compressed stream, named, not stated. Writing into a vector cannot fail.
#[verifier::external_body]
fn zlib_compress(data: &[u8]) -> (r: Vec<u8>)
    ensures
        r@ == zlib_deflated(data@),
{
    let mut encoder = flate2::write::ZlibEncoder::new(Vec::new(), flate2::Compression::default());
    encoder.write_all(data).unwrap();
    encoder.finish().unwrap()
}

/// `flate2::read::ZlibDecoder` over `data`, read to its end but at most `len` bytes: the bytes
/// it yields (named, not stated; never more than `len`), or `None` on a corrupt stream.
#[verifier::external_body]
fn zlib_decompress(data: &[u8], len: usize) -> (r: Option<Vec<u8>>)
    ensures
        r is None <==> zlib_inflated(data@, len as nat) is None,
        r matches Some(v) ==> zlib_inflated(data@, len as nat) == Some(v@) && v@.len() <= len,
{
    let mut out: Vec<u8> = Vec::new();
    match flate2::read::ZlibDecoder::new(data).take(len as u64).read_to_end(&mut out) {
        Ok(_) => Some(out),
        Err(_) => None,
    }
}

/// The stage a client connection is in.
#[derive(Clone, Copy, PartialEq, Eq, Structural, Debug)]
pub enum ConnectionState {
    Handshake,
    Status,
    Login,
    Play,
    Disconnected,
}

/// The length fields at the start of a packet.
#[derive(Clone, Copy, PartialEq, Eq, Structural, Debug)]
pub struct PacketHeader {
    /// The length of the packet as it was sent.
    pub raw_len: usize,
    /// The length of the packet's data once decompressed.
    pub data_len: usize,
    /// Whether the packet's data is compressed.
    pub compressed: bool,
}

/// The framing state of a connection: its scratch buffer and its compression threshold
/// (negative when compression is off).
pub struct IOHandle {
    operation_buffer: ByteBuffer,
    compression_threshold: i32,
}

impl IOHandle {
    /// The compression threshold; negative when compression is off.
    pub closed spec fn threshold(&self) -> i32 {
        self.compression_threshold
    }

    /// The scratch buffer.
    pub closed spec fn scratch(&self) -> ByteBuffer {
        self.operation_buffer
    }

    /// A handle with compression off and a scratch buffer of 4096 bytes.
    pub fn new() -> (r: Self)
        ensures
            r.threshold() == -1,
            r.scratch().contents().len() == 4096,
            r.scratch().position() == 0,
    {
        IOHandle { operation_buffer: ByteBuffer::new(4096), compression_threshold: -1 }
    }

    /// Sets the compression threshold.
    pub fn set_compression_threshold(&mut self, compression_threshold: i32)
        ensures
            final(self).threshold() == compression_threshold,
            final(self).scratch() == old(self).scratch(),
    {
        self.compression_threshold = compression_threshold;
    }

    /// Reads the length fields at the cursor of `packet_buffer`: the raw length, then, when
    /// compression is on, the data length, where zero means the data is not compressed. `None`
    /// means a field is missing or longer than five bytes.
    pub fn read_header(&self, packet_buffer: &mut ByteBuffer) -> (r: Option<PacketHeader>)
        ensures
            final(packet_buffer).contents() == old(packet_buffer).contents(),
            match sp_varint(old(packet_buffer).contents(), old(packet_buffer).position() as int) {
                None => r is None,
                Some((raw, i)) => if self.threshold() >= 0 {
                    match sp_varint(old(packet_buffer).contents(), i) {
                        None => r is None,
                        Some((data, j)) => r == Some(
                            PacketHeader {
                                raw_len: raw as usize,
                                data_len: if data == 0 {
                                    raw as usize
                                } else {
                                    data as usize
                                },
                                compressed: data != 0,
                            },
                        ) && final(packet_buffer).position() == j,
                    }
                } else {
                    r == Some(PacketHeader { raw_len: raw as usize, data_len: raw as usize, compressed: false })
                        && final(packet_buffer).position() == i
                },
            },
    {
        let raw = match crate::network::packet_handler::take_varint(packet_buffer) {
            Some(v) => v,
            None => return None,
        };
        let raw_len = raw as usize;
        if self.compression_threshold >= 0 {
            let data = match crate::network::packet_handler::take_varint(packet_buffer) {
                Some(v) => v,
                None => return None,
            };
            if data == 0 {
                Some(PacketHeader { raw_len, data_len: raw_len, compressed: false })
            } else {
                Some(PacketHeader { raw_len, data_len: data as usize, compressed: true })
            }
        } else {
            Some(PacketHeader { raw_len, data_len: raw_len, compressed: false })
        }
    }
}

/// `v` as a variable-length value.
fn varint_vec(v: usize) -> (r: Vec<u8>)
    requires
        v <= i32::MAX,
    ensures
        r@ == varint_bytes(v as nat),
{
    let n = ByteBuffer::varint_size(v as i32);
    let mut buf = ByteBuffer::new(n);
    let ghost zeros = buf.contents();
    buf.write_varint(v as i32);
    assert(buf.contents() =~= varint_bytes(v as nat));
    let mut out: Vec<u8> = Vec::new();
    let mut i: usize = 0;
    while i < n
        invariant
            buf.contents() == varint_bytes(v as nat),
            n == varint_bytes(v as nat).len(),
            0 <= i <= n,
            out@ == varint_bytes(v as nat).take(i as int),
        decreases n - i,
    {
        out.push(buf.get(i));
        assert(out@ =~= varint_bytes(v as nat).take(i + 1));
        i += 1;
    }
    assert(out@ =~= varint_bytes(v as nat));
    out
}

/// Appends `bytes` to `out`.
fn append(out: &mut Vec<u8>, bytes: &[u8])
    ensures
        final(out)@ == old(out)@ + bytes@,
{
    let mut i: usize = 0;
    while i < bytes.len()
        invariant
            0 <= i <= bytes@.len(),
            out@ == old(out)@ + bytes@.take(i as int),
        decreases bytes@.len() - i,
    {
        out.push(bytes[i]);
        assert(out@ =~= old(out)@ + bytes@.take(i + 1));
        i += 1;
    }
    assert(bytes@.take(bytes@.len() as int) =~= bytes@);
}

/// The frame of a compressed packet: the length of what follows, the length of the packet
/// before compression, then the compressed bytes.
pub open spec fn compressed_frame_bytes(data_len: nat, compressed: Seq<u8>) -> Seq<u8> {
    varint_bytes(varint_bytes(data_len).len() + compressed.len()) + varint_bytes(data_len)
        + compressed
}

/// The frame of a packet of `data_len` bytes that compressed to `compressed`; `None` when the
/// frame's length does not fit its 32-bit field.
pub fn compressed_frame(data_len: usize, compressed: &[u8]) -> (r: Option<Vec<u8>>)
    requires
        data_len <= i32::MAX,
    ensures
        r is None <==> varint_bytes(data_len as nat).len() + compressed@.len() > i32::MAX,
        r matches Some(v) ==> v@ == compressed_frame_bytes(data_len as nat, compressed@),
{
    let n = ByteBuffer::varint_size(data_len as i32);
    if compressed.len() > i32::MAX as usize - n {
        return None;
    }
    let mut out = varint_vec(n + compressed.len());
    let inner = varint_vec(data_len);
    append(&mut out, inner.as_slice());
    append(&mut out, compressed);
    Some(out)
}

/// What an inflated packet body gives: the bytes, when there are exactly `data_len` of them.
pub fn check_inflated(inflated: Option<Vec<u8>>, data_len: usize) -> (r: Option<Vec<u8>>)
    ensures
        r is Some <==> (inflated matches Some(v) && v@.len() == data_len),
        r matches Some(v) ==> inflated == Some(v),
{
    match inflated {
        Some(v) => if v.len() == data_len {
            Some(v)
        } else {
            None
        },
        None => None,
    }
}

impl IOHandle {
    /// The frame `data` is sent in. With compression off: its length, then the data. With
    /// compression on and the data shorter than the threshold: its length plus one, a zero
    /// (uncompressed), then the data. Otherwise the data is compressed and framed by
    /// `compressed_frame`, which gives `None` when the frame is too long for its length field.
    pub fn frame_packet(&self, data: &[u8]) -> (r: Option<Vec<u8>>)
        requires
            data@.len() < i32::MAX,
        ensures
            self.threshold() < 0 ==> (r matches Some(v) && v@ == varint_bytes(data@.len()) + data@),
            0 <= self.threshold() && data@.len() < self.threshold() ==> (r matches Some(v) && v@
                == varint_bytes(data@.len() + 1) + seq![0u8] + data@),
            0 <= self.threshold() <= data@.len() ==> {
                &&& r is None <==> varint_bytes(data@.len()).len() + zlib_deflated(data@).len()
                    > i32::MAX
                &&& r matches Some(v) ==> v@ == compressed_frame_bytes(
                    data@.len(),
                    zlib_deflated(data@),
                )
            },
    {
        let len = data.len();
        if self.compression_threshold < 0 {
            let mut out = varint_vec(len);
            append(&mut out, data);
            Some(out)
        } else if len < self.compression_threshold as usize {
            let mut out = varint_vec(len + 1);
            out.push(0u8);
            append(&mut out, data);
            assert(out@ =~= varint_bytes((len + 1) as nat) + seq![0u8] + data@);
            Some(out)
        } else {
            let compressed = zlib_compress(data);
            compressed_frame(len, compressed.as_slice())
        }
    }

    /// The packet's data from its body, the bytes after its length fields: the body itself when
    /// it is not compressed, else the body inflated, when that gives exactly the data length.
    pub fn unpack_packet(&self, header: PacketHeader, body: &[u8]) -> (r: Option<Vec<u8>>)
        ensures
            !header.compressed ==> (r matches Some(v) && v@ == body@),
            header.compressed ==> (r is Some <==> (zlib_inflated(body@, header.data_len as nat) matches Some(d)
                && d.len() == header.data_len)),
            header.compressed ==> (r matches Some(v) ==> zlib_inflated(body@, header.data_len as nat)
                == Some(v@)),
    {
        if !header.compressed {
            let mut out: Vec<u8> = Vec::new();
            append(&mut out, body);
            assert(out@ =~= body@);
            return Some(out);
        }
        let inflated = zlib_decompress(body, header.data_len);
        check_inflated(inflated, header.data_len)
    }
}

} // verus!
