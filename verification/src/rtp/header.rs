//! The fixed RTP header.
//!
//! ```text
//!  0                   1                   2                   3
//!  0 1 2 3 4 5 6 7 8 9 0 1 2 3 4 5 6 7 8 9 0 1 2 3 4 5 6 7 8 9 0 1
//! +-+-+-+-+-+-+-+-+-+-+-+-+-+-+-+-+-+-+-+-+-+-+-+-+-+-+-+-+-+-+-+-+
//! |V=2|P|X|  CC   |M|     PT      |       sequence number         |
//! +-+-+-+-+-+-+-+-+-+-+-+-+-+-+-+-+-+-+-+-+-+-+-+-+-+-+-+-+-+-+-+-+
//! |                           timestamp                           |
//! +-+-+-+-+-+-+-+-+-+-+-+-+-+-+-+-+-+-+-+-+-+-+-+-+-+-+-+-+-+-+-+-+
//! |           synchronization source (SSRC) identifier            |
//! +-+-+-+-+-+-+-+-+-+-+-+-+-+-+-+-+-+-+-+-+-+-+-+-+-+-+-+-+-+-+-+-+
//! ```
use vstd::prelude::*;
use crate::entropy::{draw_identifiers, draw_seeded, entropy_rng, seeded_identifiers};
use crate::error::{CodecError, EntropyError};
use crate::marshal::Marshal;
use crate::wire::{
    be16, be32, flag, flag_bit, from_be16, from_be32, get_u16, get_u32, overwrite, put_u16,
    put_u32, put_u8,
};

verus! {

/// Bytes that the fixed header takes.
pub const HEADER_SIZE: usize = 12;

/// The RTP version that this crate speaks.
pub const VERSION: u8 = 2;

/// The fields of the fixed RTP header. Contributing sources, extensions and
/// padding are not carried: the encoding is always twelve bytes.
#[derive(Clone, Copy, Debug, PartialEq, Eq, Structural)]
pub struct Header {
    /// Version of RTP, two bits. Always 2 in a header made by `new`.
    pub version: u8,
    /// Whether padding octets follow the payload.
    pub padding: bool,
    /// Whether a header extension follows the fixed header.
    pub extension: bool,
    /// Number of contributing sources, four bits.
    pub csrc_count: u8,
    /// Marks an event in the stream, a frame boundary for instance.
    pub marker: bool,
    /// Format of the payload, seven bits.
    pub payload_type: u8,
    /// Grows by one with each packet sent and wraps at 2^16.
    pub sequence_number: u16,
    /// Sampling instant of the first payload octet, in clock ticks.
    pub timestamp: u32,
    /// Identifies the source of the stream.
    pub ssrc: u32,
}

impl Header {
    /// The octet that carries version, padding, extension and source count.
    pub open spec fn first_octet(&self) -> int {
        self.version * 64 + flag(self.padding) * 32 + flag(self.extension) * 16 + self.csrc_count
    }

    /// The octet that carries the marker and the payload type.
    pub open spec fn second_octet(&self) -> int {
        flag(self.marker) * 128 + self.payload_type
    }

    /// A header as `new` and `update` make them: encodable, and of version 2.
    pub open spec fn well_formed(&self) -> bool {
        self.encodable() && self.version == VERSION
    }

    /// What twelve or more bytes decode to, and the error that fewer bytes or
    /// another version give.
    pub open spec fn parse(b: Seq<u8>) -> Result<(Header, usize), CodecError> {
        if b.len() < HEADER_SIZE {
            Err(CodecError::Truncated)
        } else if b[0] / 64 != VERSION {
            Err(CodecError::UnsupportedVersion)
        } else {
            Ok(
                (
                    Header {
                        version: b[0] / 64,
                        padding: b[0] / 32 % 2 == 1,
                        extension: b[0] / 16 % 2 == 1,
                        csrc_count: b[0] % 16,
                        marker: b[1] / 128 == 1,
                        payload_type: b[1] % 128,
                        sequence_number: from_be16(b, 2),
                        timestamp: from_be32(b, 4),
                        ssrc: from_be32(b, 8),
                    },
                    HEADER_SIZE,
                ),
            )
        }
    }

    /// The sequence number that follows `n`.
    pub open spec fn next_sequence_number(n: u16) -> u16 {
        if n == u16::MAX {
            0
        } else {
            (n + 1) as u16
        }
    }

    /// The header of a new session whose identifiers come from a generator
    /// seeded with `seed`: a function of its arguments and of nothing else.
    pub open spec fn seeded(
        payload_type: u8,
        initial_timestamp: u32,
        initial_marker: bool,
        seed: u64,
    ) -> Header {
        Header {
            version: VERSION,
            padding: false,
            extension: false,
            csrc_count: 0,
            marker: initial_marker,
            payload_type,
            sequence_number: seeded_identifiers(seed).0,
            timestamp: initial_timestamp,
            ssrc: seeded_identifiers(seed).1,
        }
    }

    /// A version 2 header without padding, extension or contributing sources.
    pub fn with_identifiers(
        payload_type: u8,
        initial_timestamp: u32,
        initial_marker: bool,
        sequence_number: u16,
        ssrc: u32,
    ) -> (h: Header)
        ensures
            h == (Header {
                version: VERSION,
                padding: false,
                extension: false,
                csrc_count: 0,
                marker: initial_marker,
                payload_type,
                sequence_number,
                timestamp: initial_timestamp,
                ssrc,
            }),
    {
        Header {
            version: VERSION,
            padding: false,
            extension: false,
            csrc_count: 0,
            marker: initial_marker,
            payload_type,
            sequence_number,
            timestamp: initial_timestamp,
            ssrc,
        }
    }

    /// Whether `h` is a header as a new session has it, whatever its
    /// identifiers: version 2, no padding, extension or contributing sources,
    /// and marker, payload type and timestamp as given.
    pub open spec fn fresh(
        h: Header,
        payload_type: u8,
        initial_timestamp: u32,
        initial_marker: bool,
    ) -> bool {
        h == (Header {
            version: VERSION,
            padding: false,
            extension: false,
            csrc_count: 0,
            marker: initial_marker,
            payload_type,
            sequence_number: h.sequence_number,
            timestamp: initial_timestamp,
            ssrc: h.ssrc,
        })
    }

    /// A header for a new session, with a random sequence number and SSRC.
    ///
    /// With a seed the two are those that the seeded generator yields, so
    /// equal seeds give equal headers, and the header always comes back.
    /// Without one they come from the operating system's randomness, and
    /// the only error is that it had none to give.
    pub fn new(
        payload_type: u8,
        initial_timestamp: u32,
        initial_marker: bool,
        seed: Option<u64>,
    ) -> (r: Result<Header, EntropyError>)
        ensures
            seed matches Some(s) ==> r == Ok::<Header, EntropyError>(
                Header::seeded(payload_type, initial_timestamp, initial_marker, s),
            ),
            r matches Ok(h) ==> Header::fresh(h, payload_type, initial_timestamp, initial_marker),
            r matches Err(e) ==> e == EntropyError::Unavailable,
    {
        let ids: (u16, u32) = match seed {
            Some(s) => draw_seeded(s),
            None => match entropy_rng() {
                Some(rng) => draw_identifiers(rng),
                None => {
                    return Err(EntropyError::Unavailable);
                },
            },
        };
        Ok(Header::with_identifiers(payload_type, initial_timestamp, initial_marker, ids.0, ids.1))
    }

    /// Prepares the header for the next packet: the sequence number moves on by
    /// one, wrapping at 2^16, and timestamp and marker are replaced.
    pub fn update(&mut self, new_timestamp: u32, new_marker: bool)
        ensures
            *final(self) == (Header {
                sequence_number: Header::next_sequence_number(old(self).sequence_number),
                timestamp: new_timestamp,
                marker: new_marker,
                ..*old(self)
            }),
    {
        self.sequence_number = self.sequence_number.wrapping_add(1);
        self.timestamp = new_timestamp;
        self.marker = new_marker;
    }

    /// Reads a header from the first twelve bytes of `buf`.
    pub fn unmarshal(buf: &[u8]) -> (r: Result<(Header, usize), CodecError>)
        ensures
            r == Header::parse(buf@),
    {
        if buf.len() < HEADER_SIZE {
            return Err(CodecError::Truncated);
        }
        let b0: u8 = buf[0];
        let b1: u8 = buf[1];
        if b0 / 64 != VERSION {
            return Err(CodecError::UnsupportedVersion);
        }
        let header = Header {
            version: b0 / 64,
            padding: b0 / 32 % 2 == 1,
            extension: b0 / 16 % 2 == 1,
            csrc_count: b0 % 16,
            marker: b1 / 128 == 1,
            payload_type: b1 % 128,
            sequence_number: get_u16(buf, 2),
            timestamp: get_u32(buf, 4),
            ssrc: get_u32(buf, 8),
        };
        Ok((header, HEADER_SIZE))
    }
}

impl Marshal for Header {
    open spec fn wire(&self) -> Seq<u8> {
        seq![self.first_octet() as u8, self.second_octet() as u8] + be16(self.sequence_number)
            + be32(self.timestamp) + be32(self.ssrc)
    }

    open spec fn encodable(&self) -> bool {
        self.version <= 3 && self.csrc_count <= 15 && self.payload_type <= 127
    }

    fn marshal_size(&self) -> (n: usize)
        ensures
            n == HEADER_SIZE,
    {
        HEADER_SIZE
    }

    fn marshal(&self, buf: &mut [u8]) -> (r: Result<usize, CodecError>) {
        if buf.len() < HEADER_SIZE {
            return Err(CodecError::BufferTooSmall);
        }
        if self.version > 3 || self.csrc_count > 15 || self.payload_type > 127 {
            return Err(CodecError::FieldOutOfRange);
        }
        let b0: u8 = self.version * 64 + flag_bit(self.padding) * 32 + flag_bit(self.extension)
            * 16 + self.csrc_count;
        let b1: u8 = flag_bit(self.marker) * 128 + self.payload_type;
        put_u8(buf, 0, b0);
        put_u8(buf, 1, b1);
        put_u16(buf, 2, self.sequence_number);
        put_u32(buf, 4, self.timestamp);
        put_u32(buf, 8, self.ssrc);
        assert(buf@ =~= overwrite(old(buf)@, 0, self.wire()));
        Ok(HEADER_SIZE)
    }
}

/// Decoding the encoding of a well-formed header gives the header back,
/// whatever follows it in the buffer.
pub proof fn lemma_header_roundtrip(h: Header, rest: Seq<u8>)
    requires
        h.well_formed(),
    ensures
        h.wire().len() == HEADER_SIZE,
        Header::parse(h.wire() + rest) == Ok::<(Header, usize), CodecError>((h, HEADER_SIZE)),
{
    let b = h.wire() + rest;
    assert(b[0] == h.first_octet());
    assert(b[1] == h.second_octet());
    assert(from_be16(b, 2) == h.sequence_number);
    assert(from_be32(b, 4) == h.timestamp);
    assert(from_be32(b, 8) == h.ssrc);
}

} // verus!
