//! The header that every RTCP packet starts with.
//!
//! ```text
//!  0                   1                   2                   3
//!  0 1 2 3 4 5 6 7 8 9 0 1 2 3 4 5 6 7 8 9 0 1 2 3 4 5 6 7 8 9 0 1
//! +-+-+-+-+-+-+-+-+-+-+-+-+-+-+-+-+-+-+-+-+-+-+-+-+-+-+-+-+-+-+-+-+
//! |V=2|P| specific|  packet type  |            length             |
//! +-+-+-+-+-+-+-+-+-+-+-+-+-+-+-+-+-+-+-+-+-+-+-+-+-+-+-+-+-+-+-+-+
//! ```
use vstd::prelude::*;
use crate::error::CodecError;
use crate::marshal::Marshal;
use crate::wire::{be16, flag, flag_bit, from_be16, get_u16, overwrite, put_u16, put_u8};

verus! {

/// The RTP version that RIST packets carry.
pub const VERSION: u8 = 2;

/// Bytes that the common header takes.
pub const HEADER_SIZE: usize = 4;

/// The kinds of RTCP packet that RIST uses.
#[derive(Clone, Copy, Debug, PartialEq, Eq, Structural)]
pub enum PacketType {
    SenderReport,
    ReceiverReport,
    Sdes,
    App,
    Feedback,
}

impl PacketType {
    /// The number that stands for this kind in the header.
    pub open spec fn code_of(self) -> u8 {
        match self {
            PacketType::SenderReport => 200,
            PacketType::ReceiverReport => 201,
            PacketType::Sdes => 202,
            PacketType::App => 204,
            PacketType::Feedback => 205,
        }
    }

    /// The kind that `code` stands for, if it is one of the five.
    pub open spec fn of_code(code: u8) -> Option<PacketType> {
        if code == 200 {
            Some(PacketType::SenderReport)
        } else if code == 201 {
            Some(PacketType::ReceiverReport)
        } else if code == 202 {
            Some(PacketType::Sdes)
        } else if code == 204 {
            Some(PacketType::App)
        } else if code == 205 {
            Some(PacketType::Feedback)
        } else {
            None
        }
    }

    /// The number that stands for this kind in the header.
    pub fn code(&self) -> (code: u8)
        ensures
            code == self.code_of(),
    {
        match self {
            PacketType::SenderReport => 200,
            PacketType::ReceiverReport => 201,
            PacketType::Sdes => 202,
            PacketType::App => 204,
            PacketType::Feedback => 205,
        }
    }

    /// The kind that `code` stands for, if it is one of the five.
    pub fn from_code(code: u8) -> (kind: Option<PacketType>)
        ensures
            kind == PacketType::of_code(code),
    {
        if code == 200 {
            Some(PacketType::SenderReport)
        } else if code == 201 {
            Some(PacketType::ReceiverReport)
        } else if code == 202 {
            Some(PacketType::Sdes)
        } else if code == 204 {
            Some(PacketType::App)
        } else if code == 205 {
            Some(PacketType::Feedback)
        } else {
            None
        }
    }
}

/// The fields of the common header.
#[derive(Clone, Copy, Debug, PartialEq, Eq, Structural)]
pub struct Header {
    /// Version of RTP, two bits. RIST packets carry 2.
    pub version: u8,
    /// Whether padding ends the packet.
    pub padding: bool,
    /// Five bits whose meaning the packet type gives: a count of report
    /// blocks or chunks, a subtype, or the kind of a feedback message.
    pub packet_specific: u8,
    /// The packet type.
    pub packet_type: u8,
    /// Length of the packet in 32-bit words, header included, minus one.
    pub length: u16,
}

impl Header {
    /// The octet that carries version, padding and the five specific bits.
    pub open spec fn first_octet(&self) -> int {
        self.version * 64 + flag(self.padding) * 32 + self.packet_specific
    }

    /// Bytes that a packet with this header takes: `4 * (length + 1)`.
    pub open spec fn packet_len(&self) -> int {
        4 * (self.length + 1)
    }

    /// The header that a sender of this crate writes: version 2, no padding.
    pub open spec fn plain(packet_specific: u8, packet_type: u8, length: u16) -> Header {
        Header { version: VERSION, padding: false, packet_specific, packet_type, length }
    }

    /// What four or more bytes decode to, and the error that fewer bytes or
    /// another version give.
    pub open spec fn parse(b: Seq<u8>) -> Result<(Header, usize), CodecError> {
        if b.len() < HEADER_SIZE {
            Err(CodecError::Truncated)
        } else if b[0] / 64 != VERSION {
            Err(CodecError::UnsupportedVersion)
        } else {
            Ok(
                (
                    Header {
                        version: b[0] / 64,
                        padding: b[0] / 32 % 2 == 1,
                        packet_specific: b[0] % 32,
                        packet_type: b[1],
                        length: from_be16(b, 2),
                    },
                    HEADER_SIZE,
                ),
            )
        }
    }

    /// The header of the packet of type `packet_type` that `b` starts with.
    ///
    /// The checks come in this order: the header itself, then that the buffer
    /// holds as many bytes as the header declares, then the packet type.
    pub open spec fn frame(b: Seq<u8>, packet_type: u8) -> Result<Header, CodecError> {
        match Header::parse(b) {
            Err(e) => Err(e),
            Ok((h, _)) => if b.len() < h.packet_len() {
                Err(CodecError::Truncated)
            } else if h.packet_type != packet_type {
                Err(CodecError::UnknownPacketType)
            } else {
                Ok(h)
            },
        }
    }

    /// A version 2 header without padding.
    pub fn new(packet_specific: u8, packet_type: u8, length: u16) -> (h: Header)
        ensures
            h == Header::plain(packet_specific, packet_type, length),
    {
        Header { version: VERSION, padding: false, packet_specific, packet_type, length }
    }

    /// Bytes that a packet with this header takes.
    pub fn packet_size(&self) -> (n: usize)
        ensures
            n == self.packet_len(),
    {
        let words: usize = self.length as usize + 1;
        4 * words
    }

    /// Reads a header from the first four bytes of `buf`.
    pub fn unmarshal(buf: &[u8]) -> (r: Result<(Header, usize), CodecError>)
        ensures
            r == Header::parse(buf@),
    {
        if buf.len() < HEADER_SIZE {
            return Err(CodecError::Truncated);
        }
        let b0: u8 = buf[0];
        if b0 / 64 != VERSION {
            return Err(CodecError::UnsupportedVersion);
        }
        let header = Header {
            version: b0 / 64,
            padding: b0 / 32 % 2 == 1,
            packet_specific: b0 % 32,
            packet_type: buf[1],
            length: get_u16(buf, 2),
        };
        Ok((header, HEADER_SIZE))
    }

    /// Reads the header of a packet of type `packet_type` and checks that the
    /// packet lies within `buf`.
    pub fn read_frame(buf: &[u8], packet_type: u8) -> (r: Result<Header, CodecError>)
        ensures
            r == Header::frame(buf@, packet_type),
    {
        match Header::unmarshal(buf) {
            Err(e) => Err(e),
            Ok((h, _)) => {
                if buf.len() < h.packet_size() {
                    Err(CodecError::Truncated)
                } else if h.packet_type != packet_type {
                    Err(CodecError::UnknownPacketType)
                } else {
                    Ok(h)
                }
            },
        }
    }
}

impl Marshal for Header {
    open spec fn wire(&self) -> Seq<u8> {
        seq![self.first_octet() as u8, self.packet_type] + be16(self.length)
    }

    open spec fn encodable(&self) -> bool {
        self.version <= 3 && self.packet_specific <= 31
    }

    fn marshal_size(&self) -> (n: usize)
        ensures
            n == HEADER_SIZE,
    {
        HEADER_SIZE
    }

    fn marshal(&self, buf: &mut [u8]) -> (r: Result<usize, CodecError>) {
        if buf.len() < HEADER_SIZE {
            return Err(CodecError::BufferTooSmall);
        }
        if self.version > 3 || self.packet_specific > 31 {
            return Err(CodecError::FieldOutOfRange);
        }
        let b0: u8 = self.version * 64 + flag_bit(self.padding) * 32 + self.packet_specific;
        put_u8(buf, 0, b0);
        put_u8(buf, 1, self.packet_type);
        put_u16(buf, 2, self.length);
        assert(buf@ =~= overwrite(old(buf)@, 0, self.wire()));
        Ok(HEADER_SIZE)
    }
}

/// Decoding the encoding of an encodable header of version 2 gives the header
/// back, whatever follows it in the buffer.
pub proof fn lemma_header_roundtrip(h: Header, rest: Seq<u8>)
    requires
        h.encodable(),
        h.version == VERSION,
    ensures
        h.wire().len() == HEADER_SIZE,
        Header::parse(h.wire() + rest) == Ok::<(Header, usize), CodecError>((h, HEADER_SIZE)),
{
    let b = h.wire() + rest;
    assert(b.subrange(0, 4) =~= h.wire());
    lemma_header_at_start(b, h);
}

/// A buffer whose first four bytes are those of an encodable header of
/// version 2 decodes to that header.
pub proof fn lemma_header_at_start(b: Seq<u8>, h: Header)
    requires
        h.encodable(),
        h.version == VERSION,
        b.len() >= HEADER_SIZE,
        b.subrange(0, 4) == h.wire(),
    ensures
        Header::parse(b) == Ok::<(Header, usize), CodecError>((h, HEADER_SIZE)),
{
    let f = b.subrange(0, 4);
    assert(b[0] == f[0] && b[1] == f[1]);
    assert(b[0] == h.first_octet());
    assert(b[1] == h.packet_type);
    assert(b[2] == f[2] && b[3] == f[3]);
    assert(f[2] == be16(h.length)[0] && f[3] == be16(h.length)[1]);
    assert(b.subrange(2, 4) =~= be16(h.length));
    crate::wire::lemma_field16(b, 2, h.length);
}

/// A buffer that starts with the bytes of a plain header, and is as long as
/// that header declares, is framed as that header.
pub proof fn lemma_frame_plain(b: Seq<u8>, packet_specific: u8, packet_type: u8, length: u16)
    requires
        packet_specific <= 31,
        b.len() >= 4 * (length + 1),
        b.subrange(0, 4) == Header::plain(packet_specific, packet_type, length).wire(),
    ensures
        Header::frame(b, packet_type) == Ok::<Header, CodecError>(
            Header::plain(packet_specific, packet_type, length),
        ),
{
    lemma_header_at_start(b, Header::plain(packet_specific, packet_type, length));
}

} // verus!
