use bytes::BytesMut;
use vstd::prelude::*;
use vstd::slice::{slice_subrange, slice_to_vec};
use vstd::utf8::*;

use crate::buffer::{
    buffer_advance, buffer_bytes, buffer_put, buffer_put_u64, bytes_mut_contents,
    bytes_mut_max_len,
};
use crate::utils::{error, other_error, Error, ErrorKind, ErrorView};
use crate::text::utf8_to_string;
use crate::wire::{
    append_bytes, lemma_u64_be_roundtrip, lemma_u64_from_be_prefix, read_u64_be, u64_be_bytes,
    u64_from_be, write_u64_be,
};

verus! {

/// The smallest subdivision for our packets, runs over TCP.
#[derive(Debug, Clone)]
pub struct Frame {
    /// the stream number, used to multiplex connections
    pub stream: u64,
    /// the length of the frame (in bytes, except for the header of the frame)
    pub length: u64,
    /// the contents of the frame
    pub contents: Vec<u8>,
}

/// The abstract value of a [`Frame`].
pub struct FrameModel {
    pub stream: u64,
    pub length: u64,
    pub contents: Seq<u8>,
}

impl View for Frame {
    type V = FrameModel;

    open spec fn view(&self) -> FrameModel {
        FrameModel { stream: self.stream, length: self.length, contents: self.contents@ }
    }
}

/// The number of bytes in a frame's header: the stream number and the length.
pub open spec fn frame_header_len() -> int {
    16
}

/// The bytes of a frame on the wire: stream number and length, both
/// big-endian, then the contents.
pub open spec fn spec_encode_frame(f: FrameModel) -> Seq<u8> {
    u64_be_bytes(f.stream) + u64_be_bytes(f.length) + f.contents
}

/// The length field of the frame header at the start of `buf`.
pub open spec fn frame_length_field(buf: Seq<u8>) -> u64 {
    u64_from_be(buf.subrange(8, 16))
}

/// The frame at the start of `buf` with the number of bytes that it takes,
/// or `None` while `buf` does not yet hold the whole frame.
pub open spec fn spec_decode_frame(buf: Seq<u8>) -> Option<(FrameModel, int)> {
    if buf.len() < frame_header_len() {
        None
    } else {
        let length = frame_length_field(buf);
        if buf.len() < frame_header_len() + length {
            None
        } else {
            Some(
                (
                    FrameModel {
                        stream: u64_from_be(buf),
                        length,
                        contents: buf.subrange(frame_header_len(), frame_header_len() + length),
                    },
                    frame_header_len() + length,
                ),
            )
        }
    }
}

/// True when the header at the start of `buf` announces a length so large
/// that adding the header's size to it overflows a `u64`.
pub open spec fn frame_length_overflows(buf: Seq<u8>) -> bool {
    buf.len() >= frame_header_len() && frame_length_field(buf) > u64::MAX - frame_header_len()
}

/// This codec allows for the decoding and encoding of arbitrary TCP packets into frames
pub struct FrameCodec;

impl FrameCodec {
    /// Takes the frame at the start of `src` out of it, or leaves `src` as it
    /// is while it does not yet hold a whole frame.
    pub fn decode(&mut self, src: &mut BytesMut) -> (res: Result<Option<Frame>, Error>)
        requires
            !frame_length_overflows(bytes_mut_contents(*old(src))),
        ensures
            match spec_decode_frame(bytes_mut_contents(*old(src))) {
                None => {
                    &&& res matches Ok(None)
                    &&& bytes_mut_contents(*final(src)) == bytes_mut_contents(*old(src))
                },
                Some((f, n)) => {
                    &&& res matches Ok(Some(frame)) && frame@ == f
                    &&& bytes_mut_contents(*final(src)) == bytes_mut_contents(*old(src)).subrange(
                        n,
                        bytes_mut_contents(*old(src)).len() as int,
                    )
                },
            },
    {
        let bytes = buffer_bytes(src);
        let src_length = bytes.len();
        if src_length < 8 {
            return Ok(None);
        }
        let stream = read_u64_be(bytes);
        if src_length < 16 {
            return Ok(None);
        }
        let length = read_u64_be(slice_subrange(bytes, 8, 16));
        if (src_length as u64) < 16 + length {
            return Ok(None);
        }
        let end = (16 + length) as usize;
        let contents = slice_to_vec(slice_subrange(bytes, 16, end));
        buffer_advance(src, end);
        Ok(Some(Frame { stream, length, contents }))
    }

    /// Appends the bytes of `frame` to `buff`.
    pub fn encode(&mut self, frame: Frame, buff: &mut BytesMut) -> (res: Result<(), Error>)
        requires
            bytes_mut_contents(*old(buff)).len() + frame_header_len() + frame.contents@.len()
                <= bytes_mut_max_len(),
        ensures
            res is Ok,
            bytes_mut_contents(*final(buff)) == bytes_mut_contents(*old(buff)) + spec_encode_frame(
                frame@,
            ),
    {
        buffer_put_u64(buff, frame.stream);
        buffer_put_u64(buff, frame.length);
        buffer_put(buff, frame.contents.as_slice());
        Ok(())
    }
}

/// Decoding the bytes of a frame whose length field is the length of its
/// contents gives the frame back, followed by whatever bytes came after it.
pub proof fn lemma_frame_roundtrip(f: FrameModel, rest: Seq<u8>)
    requires
        f.length == f.contents.len(),
    ensures
        spec_decode_frame(spec_encode_frame(f) + rest) == Some(
            (f, frame_header_len() + f.length),
        ),
        (spec_encode_frame(f) + rest).subrange(
            frame_header_len() + f.length,
            (spec_encode_frame(f) + rest).len() as int,
        ) == rest,
        f.length <= u64::MAX - frame_header_len() ==> !frame_length_overflows(
            spec_encode_frame(f) + rest,
        ),
{
    let buf = spec_encode_frame(f) + rest;
    lemma_u64_be_roundtrip(f.stream);
    lemma_u64_be_roundtrip(f.length);
    assert(buf.subrange(0, 8) == u64_be_bytes(f.stream).subrange(0, 8));
    lemma_u64_from_be_prefix(buf, u64_be_bytes(f.stream));
    assert(buf.subrange(8, 16).subrange(0, 8) == u64_be_bytes(f.length).subrange(0, 8));
    lemma_u64_from_be_prefix(buf.subrange(8, 16), u64_be_bytes(f.length));
    assert(buf.subrange(16, 16 + f.length) == f.contents);
    assert(buf.subrange(16 + f.length, buf.len() as int) == rest);
}

/// A message of the tunnelling protocol, carried inside frames.
#[derive(Clone, Debug, PartialEq, Eq)]
pub enum Packet {
    /// This message is sent from the client to the server, in order to setup a proxy on some
    /// subdomain, and start accepting connections from that domain.
    ///
    /// This packet should be sent over stream 0.
    ///
    /// Layout in bytes:
    ///
    /// * type (1 byte): set to 0x0
    /// * contains_subdomain (1 byte): 0x0 if not, 0x1 otherwise
    /// * subdomain_length (8 byte): big endian length of the subdomain string
    /// * subdomain (aribrary length)
    RequestProxy {
        /// The name of the custom subdomain
        custom_subdomain: Option<String>,
    },
    /// Sent from the server to the client when someone connects to the proxy.
    ///
    /// Layout in bytes:
    ///
    /// * type (1 byte): set to 0x1
    /// * stream_id (8 bytes): big endian stream id
    InitializeConnection {
        /// The id of the stream that the server is going to use to send forwarded TCP packets,
        /// and which the client should use to reply.
        stream_id: u64,
    },
    /// Sent by the client or server, depending on what side the tcp connection was closed,
    /// causes the TCP connection of the client, with the proxied server to close if sent
    /// from the server, or cause the connection from the server with  external clients to close
    /// if coming from the client.
    ///
    /// Should be sent over stream 0.
    ///
    /// Layout in bytes:
    ///
    /// * type (1 byte): set to 0x2
    /// * stream_id (8 bytes): big endian stream id to clsoe
    CloseConnection {
        ///  The id of the stream that shall be closed on the server or client.
        stream_id: u64,
    },
    /// A packet sent from either server or client which was proxied
    ///
    /// Layout in bytes:
    /// * type (1 byte): set to 0x3
    /// * contents (arbitrary lenght)
    OverlayedPacket { contents: Vec<u8> },
}

/// The abstract value of a [`Packet`]: strings as characters, byte vectors as sequences.
pub enum PacketModel {
    RequestProxy { custom_subdomain: Option<Seq<char>> },
    InitializeConnection { stream_id: u64 },
    CloseConnection { stream_id: u64 },
    OverlayedPacket { contents: Seq<u8> },
}

impl View for Packet {
    type V = PacketModel;

    open spec fn view(&self) -> PacketModel {
        match self {
            Packet::RequestProxy { custom_subdomain } => PacketModel::RequestProxy {
                custom_subdomain: match custom_subdomain {
                    Some(s) => Some(s@),
                    None => None,
                },
            },
            Packet::InitializeConnection { stream_id } => PacketModel::InitializeConnection {
                stream_id: *stream_id,
            },
            Packet::CloseConnection { stream_id } => PacketModel::CloseConnection {
                stream_id: *stream_id,
            },
            Packet::OverlayedPacket { contents } => PacketModel::OverlayedPacket {
                contents: contents@,
            },
        }
    }
}

/// The bytes of a packet, as `Packet::serialize` writes them.
pub open spec fn spec_serialize_packet(p: PacketModel) -> Seq<u8> {
    match p {
        PacketModel::RequestProxy { custom_subdomain: None } => seq![0x00u8, 0x00u8],
        PacketModel::RequestProxy { custom_subdomain: Some(domain) } => seq![0x00u8, 0x01u8]
            + u64_be_bytes(encode_utf8(domain).len() as u64) + encode_utf8(domain),
        PacketModel::InitializeConnection { stream_id } => seq![0x01u8] + u64_be_bytes(stream_id),
        PacketModel::CloseConnection { stream_id } => seq![0x02u8] + u64_be_bytes(stream_id),
        PacketModel::OverlayedPacket { contents } => seq![0x03u8] + contents,
    }
}

/// The error that a field announced but cut short is reported with.
pub open spec fn unexpected_eof_error() -> ErrorView {
    ErrorView { kind: ErrorKind::UnexpectedEof, message: "failed to fill whole buffer"@ }
}

/// The subdomain length field of a `RequestProxy` packet.
pub open spec fn subdomain_length_field(b: Seq<u8>) -> u64 {
    u64_from_be(b.subrange(2, 10))
}

/// What `Packet::parse` gives for the bytes `b`: the packet, or the error.
/// Bytes after the fields of the packet's type are ignored.
pub open spec fn spec_parse_packet(b: Seq<u8>) -> Result<PacketModel, ErrorView> {
    if b.len() < 1 {
        Err(other_error("could not read packet type"@))
    } else if b[0] == 0x00 {
        if b.len() < 2 {
            Err(other_error("could not read contains subdomain"@))
        } else if b[1] == 0x01 {
            if b.len() < 10 {
                Err(other_error("could not read subdomain length"@))
            } else if b.len() - 10 < subdomain_length_field(b) {
                Err(unexpected_eof_error())
            } else {
                let raw = b.subrange(10, 10 + subdomain_length_field(b));
                if valid_utf8(raw) {
                    Ok(PacketModel::RequestProxy { custom_subdomain: Some(decode_utf8(raw)) })
                } else {
                    Err(other_error("could not parse subdomain string"@))
                }
            }
        } else {
            Ok(PacketModel::RequestProxy { custom_subdomain: None })
        }
    } else if b[0] == 0x01 {
        if b.len() < 9 {
            Err(other_error("could not read stream id"@))
        } else {
            Ok(PacketModel::InitializeConnection { stream_id: u64_from_be(b.subrange(1, 9)) })
        }
    } else if b[0] == 0x02 {
        if b.len() < 9 {
            Err(other_error("could not read stream id"@))
        } else {
            Ok(PacketModel::CloseConnection { stream_id: u64_from_be(b.subrange(1, 9)) })
        }
    } else if b[0] == 0x03 {
        Ok(PacketModel::OverlayedPacket { contents: b.subrange(1, b.len() as int) })
    } else {
        Err(other_error("invalid packet type"@))
    }
}

/// True when `b` is a `RequestProxy` packet whose subdomain length is more
/// than a buffer can hold (`isize::MAX` bytes): reading it starts by
/// allocating a buffer of that length.
pub open spec fn subdomain_length_unallocatable(b: Seq<u8>) -> bool {
    &&& b.len() >= 10
    &&& b[0] == 0x00
    &&& b[1] == 0x01
    &&& subdomain_length_field(b) > isize::MAX
}

impl Packet {
    /// Parses a packet from the given stream of bytes
    pub fn parse(bytes: Vec<u8>) -> (res: Result<Packet, Error>)
        requires
            !subdomain_length_unallocatable(bytes@),
        ensures
            match res {
                Ok(p) => spec_parse_packet(bytes@) == Ok::<PacketModel, ErrorView>(p@),
                Err(e) => spec_parse_packet(bytes@) == Err::<PacketModel, ErrorView>(e@),
            },
    {
        let len = bytes.len();
        if len < 1 {
            return Err(error("could not read packet type"));
        }
        let packet_type = bytes[0];
        if packet_type == 0x00 {
            if len < 2 {
                return Err(error("could not read contains subdomain"));
            }
            if bytes[1] == 0x01 {
                if len < 10 {
                    return Err(error("could not read subdomain length"));
                }
                let length = read_u64_be(slice_subrange(bytes.as_slice(), 2, 10));
                if ((len - 10) as u64) < length {
                    return Err(
                        Error {
                            kind: ErrorKind::UnexpectedEof,
                            message: "failed to fill whole buffer".to_owned(),
                        },
                    );
                }
                let end = 10 + length as usize;
                let buff = slice_to_vec(slice_subrange(bytes.as_slice(), 10, end));
                match utf8_to_string(buff) {
                    Some(domain) => Ok(Packet::RequestProxy { custom_subdomain: Some(domain) }),
                    None => Err(error("could not parse subdomain string")),
                }
            } else {
                Ok(Packet::RequestProxy { custom_subdomain: None })
            }
        } else if packet_type == 0x01 {
            if len < 9 {
                return Err(error("could not read stream id"));
            }
            let stream_id = read_u64_be(slice_subrange(bytes.as_slice(), 1, 9));
            Ok(Packet::InitializeConnection { stream_id })
        } else if packet_type == 0x02 {
            if len < 9 {
                return Err(error("could not read stream id"));
            }
            let stream_id = read_u64_be(slice_subrange(bytes.as_slice(), 1, 9));
            Ok(Packet::CloseConnection { stream_id })
        } else if packet_type == 0x03 {
            let contents = slice_to_vec(slice_subrange(bytes.as_slice(), 1, len));
            Ok(Packet::OverlayedPacket { contents })
        } else {
            Err(error("invalid packet type"))
        }
    }

    /// Converts a packet to a series of bytes that can be sent over a frame
    pub fn serialize(&self) -> (res: Result<Vec<u8>, Error>)
        ensures
            res matches Ok(bytes) && bytes@ == spec_serialize_packet(self@),
            res matches Ok(bytes) && spec_parse_packet(bytes@) == Ok::<PacketModel, ErrorView>(
                self@,
            ),
    {
        // the largest fixed-size packet is 10 bytes long
        let mut buff: Vec<u8> = Vec::with_capacity(10);
        match self {
            Packet::RequestProxy { custom_subdomain: None } => {
                buff.push(0x00);  // type
                buff.push(0x00);  // contains_subdomain
            },
            Packet::RequestProxy { custom_subdomain: Some(domain) } => {
                buff.push(0x00);  // type
                buff.push(0x01);  // contains_subdomain
                let contents = domain.as_str().as_bytes();
                let contents_len = contents.len();
                proof {
                    assert(contents@.len() <= u64::MAX);
                    lemma_packet_roundtrip(self@);
                }
                let length = write_u64_be(contents_len as u64);
                append_bytes(&mut buff, length.as_slice());  // length
                append_bytes(&mut buff, contents);  // domain itself
            },
            Packet::InitializeConnection { stream_id } => {
                buff.push(0x01);  // type
                let id = write_u64_be(*stream_id);
                append_bytes(&mut buff, id.as_slice());  // stream_id
            },
            Packet::CloseConnection { stream_id } => {
                buff.push(0x02);
                let id = write_u64_be(*stream_id);
                append_bytes(&mut buff, id.as_slice());
            },
            Packet::OverlayedPacket { contents } => {
                buff.push(0x03);
                append_bytes(&mut buff, contents.as_slice());
            },
        }
        proof {
            match self@ {
                PacketModel::RequestProxy { custom_subdomain: Some(_) } => {},
                _ => lemma_packet_roundtrip(self@),
            }
        }
        Ok(buff)
    }
}

/// True when the subdomain of `p`, if it has one, has a length that its
/// eight-byte length field can hold.
pub open spec fn packet_lengths_fit(p: PacketModel) -> bool {
    p matches PacketModel::RequestProxy { custom_subdomain: Some(domain) } ==> encode_utf8(
        domain,
    ).len() <= u64::MAX
}

/// Parsing the bytes of a packet gives the packet back.
pub proof fn lemma_packet_roundtrip(p: PacketModel)
    requires
        packet_lengths_fit(p),
    ensures
        spec_parse_packet(spec_serialize_packet(p)) == Ok::<PacketModel, ErrorView>(p),
        p matches PacketModel::RequestProxy { custom_subdomain: Some(domain) } && encode_utf8(
            domain,
        ).len() <= isize::MAX ==> !subdomain_length_unallocatable(spec_serialize_packet(p)),
{
    let b = spec_serialize_packet(p);
    match p {
        PacketModel::RequestProxy { custom_subdomain: None } => {},
        PacketModel::RequestProxy { custom_subdomain: Some(domain) } => {
            let raw = encode_utf8(domain);
            let n = raw.len() as u64;
            lemma_u64_be_roundtrip(n);
            assert(b.subrange(2, 10) == u64_be_bytes(n));
            assert(subdomain_length_field(b) == n);
            assert(b.subrange(10, 10 + n) == raw);
            encode_utf8_valid_utf8(domain);
            encode_utf8_decode_utf8(domain);
        },
        PacketModel::InitializeConnection { stream_id } => {
            lemma_u64_be_roundtrip(stream_id);
            assert(b.subrange(1, 9) == u64_be_bytes(stream_id));
        },
        PacketModel::CloseConnection { stream_id } => {
            lemma_u64_be_roundtrip(stream_id);
            assert(b.subrange(1, 9) == u64_be_bytes(stream_id));
        },
        PacketModel::OverlayedPacket { contents } => {
            assert(b.subrange(1, b.len() as int) == contents);
        },
    }
}

/// A packet sent as the contents of a frame whose length field is the
/// packet's size comes out of the frame decoder and the packet parser as the
/// same packet, with the bytes after the frame left in the buffer.
pub proof fn lemma_packet_through_frame(p: PacketModel, stream: u64, rest: Seq<u8>)
    requires
        packet_lengths_fit(p),
        spec_serialize_packet(p).len() <= u64::MAX,
    ensures
        ({
            let contents = spec_serialize_packet(p);
            let frame = FrameModel { stream, length: contents.len() as u64, contents };
            let buf = spec_encode_frame(frame) + rest;
            &&& spec_decode_frame(buf) matches Some((f, n)) && f == frame && buf.subrange(
                n,
                buf.len() as int,
            ) == rest
            &&& spec_parse_packet(frame.contents) == Ok::<PacketModel, ErrorView>(p)
        }),
{
    let contents = spec_serialize_packet(p);
    let frame = FrameModel { stream, length: contents.len() as u64, contents };
    lemma_frame_roundtrip(frame, rest);
    lemma_packet_roundtrip(p);
}

} // verus!
