//! Source descriptions: the canonical name of a source. RIST sends them with
//! exactly one chunk, and that chunk with exactly one item.
use vstd::prelude::*;
use vstd::slice::{slice_subrange, slice_to_vec};
use vstd::utf8::{
    decode_utf8, encode_utf8, encode_utf8_decode_utf8, encode_utf8_valid_utf8, is_ascii_chars,
    is_ascii_chars_encode_utf8, valid_utf8,
};
use crate::error::CodecError;
use crate::marshal::Marshal;
use crate::rtcp::header::{lemma_frame_plain, Header, PacketType};
use crate::text::string_from_utf8;
use crate::wire::{
    be32, from_be32, get_u32, lemma_field32, overwrite, put_bytes, put_u32, put_u8, put_zeros,
    zeros,
};

verus! {

/// Bytes of the common header.
pub const SDES_HEADER_SIZE: usize = 4;

/// Bytes of a chunk before its name: the source, the item type and the
/// length of the name.
pub const CHUNK_HEADER_SIZE: usize = 6;

/// Item type of a canonical name.
pub const CNAME: u8 = 1;

/// The one chunk of a source description.
#[derive(Clone, Debug, PartialEq, Eq)]
pub struct Chunk {
    /// The source that is described.
    pub ssrc: u32,
    /// Marks the item as a canonical name. It is 1 in a chunk made by `new`
    /// and in every chunk that was decoded; a chunk with another value is
    /// not encoded.
    pub cname: u8,
    /// Length of the name in bytes.
    pub name_length: u8,
    /// The name: ASCII, not terminated, by custom of the form `user@host`.
    pub user_and_domain: String,
}

/// What a chunk is, apart from how its name is stored.
pub struct ChunkView {
    pub ssrc: u32,
    pub cname: u8,
    pub name_length: u8,
    pub user_and_domain: Seq<char>,
}

impl View for Chunk {
    type V = ChunkView;

    open spec fn view(&self) -> ChunkView {
        ChunkView {
            ssrc: self.ssrc,
            cname: self.cname,
            name_length: self.name_length,
            user_and_domain: self.user_and_domain@,
        }
    }
}

/// A source description.
#[derive(Clone, Debug, PartialEq, Eq)]
pub struct Sdes {
    /// Its one chunk.
    pub chunk: Chunk,
}

/// What a source description is, apart from how its name is stored.
pub struct SdesView {
    pub chunk: ChunkView,
}

impl View for Sdes {
    type V = SdesView;

    open spec fn view(&self) -> SdesView {
        SdesView { chunk: self.chunk@ }
    }
}

/// Bytes of a source description before padding, for a name of `name_len`
/// bytes.
pub open spec fn unpadded_len(name_len: int) -> int {
    SDES_HEADER_SIZE + CHUNK_HEADER_SIZE + name_len
}

/// Zero bytes that bring such a packet to a whole number of words.
pub open spec fn padding_len(name_len: int) -> int {
    (4 - unpadded_len(name_len) % 4) % 4
}

/// Value of the length field for a name of `name_len` bytes: the words that
/// header, chunk header and name take, rounded up, minus one.
pub open spec fn sdes_length(name_len: int) -> int {
    (unpadded_len(name_len) + 3) / 4 - 1
}

impl ChunkView {
    /// The bytes of the name.
    pub open spec fn name_bytes(self) -> Seq<u8> {
        encode_utf8(self.user_and_domain)
    }

    /// The item is a canonical name, and the name is ASCII and as long as
    /// `name_length` says.
    pub open spec fn encodable(self) -> bool {
        self.cname == CNAME && is_ascii_chars(self.user_and_domain)
            && self.user_and_domain.len() == self.name_length
    }
}

impl SdesView {
    /// The common header: a source description of one chunk.
    pub open spec fn header(self) -> Header {
        Header::plain(
            1,
            PacketType::Sdes.code_of(),
            sdes_length(self.chunk.name_bytes().len() as int) as u16,
        )
    }

    /// Header, source, item type, length of the name, the name, and zero
    /// bytes up to the next whole word.
    pub open spec fn wire(self) -> Seq<u8> {
        self.header().wire() + be32(self.chunk.ssrc) + seq![
            self.chunk.cname,
            self.chunk.name_length,
        ] + self.chunk.name_bytes() + zeros(
            padding_len(self.chunk.name_bytes().len() as int) as nat,
        )
    }

    /// What a buffer that starts with a source description decodes to.
    ///
    /// After the frame checks, a chunk count other than one is refused as
    /// unknown, a declared length under 12 bytes as truncated, an item that
    /// is no canonical name as unknown, a declared length that ends before
    /// the name does as truncated, and a name that is not ASCII as out of
    /// range.
    pub open spec fn parse(b: Seq<u8>) -> Result<(SdesView, usize), CodecError> {
        match Header::frame(b, PacketType::Sdes.code_of()) {
            Err(e) => Err(e),
            Ok(h) => if h.packet_specific != 1 {
                Err(CodecError::UnknownPacketType)
            } else if h.packet_len() < unpadded_len(0) {
                Err(CodecError::Truncated)
            } else if b[8] != CNAME {
                Err(CodecError::UnknownPacketType)
            } else if h.packet_len() < unpadded_len(b[9] as int) {
                Err(CodecError::Truncated)
            } else {
                let name = b.subrange(10, 10 + b[9]);
                if !valid_utf8(name) || !is_ascii_chars(decode_utf8(name)) {
                    Err(CodecError::FieldOutOfRange)
                } else {
                    Ok(
                        (
                            SdesView {
                                chunk: ChunkView {
                                    ssrc: from_be32(b, 4),
                                    cname: b[8],
                                    name_length: b[9],
                                    user_and_domain: decode_utf8(name),
                                },
                            },
                            h.packet_len() as usize,
                        ),
                    )
                }
            },
        }
    }
}

/// The common header of a source description with the given length field.
pub fn sdes_header(length: u16) -> (h: Header)
    ensures
        h == Header::plain(1, PacketType::Sdes.code_of(), length),
{
    Header::new(1, PacketType::Sdes.code(), length)
}

/// The length field of a source description whose name has `name_length`
/// bytes: the packet's 32-bit words, padding included, minus one.
pub fn calculate_sdes_length(name_length: u8) -> (length: u16)
    ensures
        length == sdes_length(name_length as int),
{
    let size: u16 = SDES_HEADER_SIZE as u16 + CHUNK_HEADER_SIZE as u16 + name_length as u16;
    (size + 3) / 4 - 1
}

impl Chunk {
    /// A chunk that names `ssrc`. The length is that of the name in bytes; a
    /// name of more than 255 bytes leaves only the low eight bits of its
    /// length there, and the chunk cannot be encoded.
    pub fn new(ssrc: u32, user_and_domain: String) -> (chunk: Chunk)
        ensures
            chunk@ == (ChunkView {
                ssrc,
                cname: CNAME,
                name_length: (encode_utf8(user_and_domain@).len() % 256) as u8,
                user_and_domain: user_and_domain@,
            }),
    {
        let length: usize = user_and_domain.as_str().as_bytes().len();
        Chunk { ssrc, cname: CNAME, name_length: (length % 256) as u8, user_and_domain }
    }
}

impl Sdes {
    /// The common header that is written before this description, where the
    /// chunk can be encoded.
    pub fn header(&self) -> (h: Option<Header>)
        ensures
            self@.chunk.encodable() ==> h == Some(self@.header()),
            !self@.chunk.encodable() ==> h.is_none(),
    {
        let name_len: usize = self.chunk.user_and_domain.as_str().as_bytes().len();
        if self.chunk.cname != CNAME || !self.chunk.user_and_domain.as_str().is_ascii() {
            return None;
        }
        proof {
            is_ascii_chars_encode_utf8(self.chunk.user_and_domain@);
        }
        if name_len != self.chunk.name_length as usize {
            return None;
        }
        Some(sdes_header(calculate_sdes_length(self.chunk.name_length)))
    }

    /// A source description with the given chunk.
    pub fn new(chunk: Chunk) -> (sdes: Sdes)
        ensures
            sdes@ == (SdesView { chunk: chunk@ }),
    {
        Sdes { chunk }
    }

    /// Reads a source description from the start of `buf`.
    pub fn unmarshal(buf: &[u8]) -> (r: Result<(Sdes, usize), CodecError>)
        ensures
            match (r, SdesView::parse(buf@)) {
                (Ok((p, n)), Ok((v, m))) => p@ == v && n == m,
                (Err(e), Err(f)) => e == f,
                _ => false,
            },
    {
        match Header::read_frame(buf, PacketType::Sdes.code()) {
            Err(e) => Err(e),
            Ok(h) => {
                if h.packet_specific != 1 {
                    return Err(CodecError::UnknownPacketType);
                }
                let size: usize = h.packet_size();
                if size < SDES_HEADER_SIZE + CHUNK_HEADER_SIZE {
                    return Err(CodecError::Truncated);
                }
                if buf[8] != CNAME {
                    return Err(CodecError::UnknownPacketType);
                }
                let name_length: u8 = buf[9];
                let end: usize = SDES_HEADER_SIZE + CHUNK_HEADER_SIZE + name_length as usize;
                if size < end {
                    return Err(CodecError::Truncated);
                }
                let name: Vec<u8> = slice_to_vec(slice_subrange(buf, 10, end));
                let ghost bytes = name@;
                match string_from_utf8(name) {
                    None => Err(CodecError::FieldOutOfRange),
                    Some(text) => {
                        proof {
                            encode_utf8_decode_utf8(text@);
                        }
                        if !text.as_str().is_ascii() {
                            return Err(CodecError::FieldOutOfRange);
                        }
                        let chunk = Chunk {
                            ssrc: get_u32(buf, 4),
                            cname: buf[8],
                            name_length,
                            user_and_domain: text,
                        };
                        Ok((Sdes { chunk }, size))
                    },
                }
            },
        }
    }
}

impl Marshal for Sdes {
    open spec fn wire(&self) -> Seq<u8> {
        self@.wire()
    }

    open spec fn encodable(&self) -> bool {
        self@.chunk.encodable()
    }

    fn marshal_size(&self) -> (n: usize) {
        let name_len: usize = self.chunk.user_and_domain.as_str().len();
        let unpadded: usize = SDES_HEADER_SIZE + CHUNK_HEADER_SIZE + name_len;
        let padding: usize = (4 - unpadded % 4) % 4;
        unpadded + padding
    }

    fn marshal(&self, buf: &mut [u8]) -> (r: Result<usize, CodecError>) {
        let name: &[u8] = self.chunk.user_and_domain.as_str().as_bytes();
        let name_len: usize = name.len();
        let fixed: usize = SDES_HEADER_SIZE + CHUNK_HEADER_SIZE;
        if buf.len() < fixed || buf.len() - fixed < name_len {
            return Err(CodecError::BufferTooSmall);
        }
        let unpadded: usize = fixed + name_len;
        let padding: usize = (4 - unpadded % 4) % 4;
        if buf.len() - unpadded < padding {
            return Err(CodecError::BufferTooSmall);
        }
        if self.chunk.cname != CNAME || !self.chunk.user_and_domain.as_str().is_ascii() {
            return Err(CodecError::FieldOutOfRange);
        }
        proof {
            is_ascii_chars_encode_utf8(self.chunk.user_and_domain@);
        }
        if name_len != self.chunk.name_length as usize {
            return Err(CodecError::FieldOutOfRange);
        }
        let header = sdes_header(calculate_sdes_length(self.chunk.name_length));
        let written = header.marshal(buf);
        assert(written is Ok);
        put_u32(buf, 4, self.chunk.ssrc);
        put_u8(buf, 8, self.chunk.cname);
        put_u8(buf, 9, self.chunk.name_length);
        put_bytes(buf, fixed, name);
        put_zeros(buf, unpadded, padding);
        assert(buf@ =~= overwrite(old(buf)@, 0, self.wire()));
        Ok(unpadded + padding)
    }
}

/// Decoding the encoding of a source description whose chunk is encodable
/// gives the description back, whatever follows it in the buffer.
pub proof fn lemma_sdes_roundtrip(sdes: SdesView, rest: Seq<u8>)
    requires
        sdes.chunk.encodable(),
    ensures
        SdesView::parse(sdes.wire() + rest) == Ok::<(SdesView, usize), CodecError>(
            (sdes, sdes.wire().len() as usize),
        ),
{
    let b = sdes.wire() + rest;
    let chunk = sdes.chunk;
    let name = chunk.name_bytes();
    let n = chunk.name_length as int;
    is_ascii_chars_encode_utf8(chunk.user_and_domain);
    encode_utf8_valid_utf8(chunk.user_and_domain);
    encode_utf8_decode_utf8(chunk.user_and_domain);
    assert(name.len() == n);
    assert(b.subrange(0, 4) =~= sdes.header().wire());
    lemma_frame_plain(b, 1, PacketType::Sdes.code_of(), sdes_length(n) as u16);
    assert(b.subrange(4, 8) =~= be32(chunk.ssrc));
    lemma_field32(b, 4, chunk.ssrc);
    assert(b[8] == chunk.cname);
    assert(b[9] == chunk.name_length);
    assert(b.subrange(10, 10 + n) =~= name);
}

} // verus!
