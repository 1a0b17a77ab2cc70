//! The feedback messages that RIST adds: the round-trip echo and the
//! range-based NACK.
use vstd::prelude::*;
use vstd::slice::slice_to_vec;
use crate::error::CodecError;
use crate::marshal::Marshal;
use crate::rtcp::feedback::{Subtype, RIST_NAME};
use crate::rtcp::header::{lemma_frame_plain, Header, PacketType};
use crate::wire::{
    be32, be64, from_be32, from_be64, get_pairs, get_u32, get_u64, lemma_field32, lemma_field64,
    lemma_pairs_at, overwrite, pairs_of, pairs_wire, parse_pairs, put_pairs, put_u32, put_u64,
    put_zeros, zeros, WirePair,
};

verus! {

/// Bytes of an echo message before its padding.
pub const ECHO_FIXED_SIZE: usize = 28;

/// Value of the length field of an echo message without padding.
pub const ECHO_FIXED_LENGTH: u16 = 5;

/// The most padding words that the length field leaves room for.
pub const MAX_PADDING_WORDS: u32 = 65530;

/// Bytes of a range-based NACK before its first range.
pub const RANGE_NACK_FIXED_SIZE: usize = 12;

/// The most ranges that the length field leaves room for.
pub const MAX_RANGES: usize = 65533;

/// A round-trip probe, or the answer to one.
///
/// The sender of a request puts a value of its choice in `timestamp`; the
/// answer carries the same value back, with the time that the peer took to
/// answer.
#[derive(Clone, Copy, Debug, PartialEq, Eq, Structural)]
pub struct RttEcho {
    /// Request or response.
    pub subtype: Subtype,
    /// The media source that the probe is about.
    pub ssrc: u32,
    /// The value that is echoed.
    pub timestamp: u64,
    /// Time between the arrival of the request and the departure of the
    /// response, in the units of `timestamp`. Zero in a request.
    pub processing_delay: u64,
    /// Number of 32-bit words of padding behind the message.
    pub padding_size: u32,
}

impl RttEcho {
    /// Whether the subtype is one of the two that an echo message can have.
    pub open spec fn is_echo(subtype: Subtype) -> bool {
        subtype == Subtype::EchoRequest || subtype == Subtype::EchoResponse
    }

    /// The common header: an application packet whose length field is five
    /// plus the padding words.
    pub open spec fn spec_header(&self) -> Header {
        Header::plain(
            self.subtype.code_of(),
            PacketType::App.code_of(),
            (ECHO_FIXED_LENGTH + self.padding_size) as u16,
        )
    }

    /// Bytes that a message takes whose header declares `h.length`: the
    /// length field of an echo message is five plus the padding words, two
    /// less than the words of the message.
    pub open spec fn declared_len(h: Header) -> int {
        h.packet_len() + 4
    }

    /// What a buffer that starts with an echo message decodes to.
    ///
    /// After the frame checks, a subtype that is neither request nor response
    /// is refused as unknown, a length field under five or a buffer that ends
    /// before the message as truncated, and a name other than RIST's as
    /// unknown. What the padding holds is not looked at.
    pub open spec fn parse(b: Seq<u8>) -> Result<(RttEcho, usize), CodecError> {
        match Header::frame(b, PacketType::App.code_of()) {
            Err(e) => Err(e),
            Ok(h) => if h.packet_specific != 2 && h.packet_specific != 3 {
                Err(CodecError::UnknownPacketType)
            } else if h.length < ECHO_FIXED_LENGTH || b.len() < RttEcho::declared_len(h) {
                Err(CodecError::Truncated)
            } else if from_be32(b, 8) != RIST_NAME {
                Err(CodecError::UnknownPacketType)
            } else {
                Ok(
                    (
                        RttEcho {
                            subtype: if h.packet_specific == 2 {
                                Subtype::EchoRequest
                            } else {
                                Subtype::EchoResponse
                            },
                            ssrc: from_be32(b, 4),
                            timestamp: from_be64(b, 12),
                            processing_delay: from_be64(b, 20),
                            padding_size: (h.length - ECHO_FIXED_LENGTH) as u32,
                        },
                        RttEcho::declared_len(h) as usize,
                    ),
                )
            },
        }
    }

    /// The common header that is written before this message, where its
    /// length field can hold the padding.
    pub fn header(&self) -> (h: Option<Header>)
        ensures
            self.padding_size <= MAX_PADDING_WORDS ==> h == Some(self.spec_header()),
            self.padding_size > MAX_PADDING_WORDS ==> h.is_none(),
    {
        match RttEcho::calculate_length(self.padding_size) {
            Some(length) => Some(Header::new(self.subtype.code(), PacketType::App.code(), length)),
            None => None,
        }
    }

    /// The application name that is written behind the source: RIST's.
    pub fn name(&self) -> (name: u32)
        ensures
            name == RIST_NAME,
    {
        RIST_NAME
    }

    /// A request that carries `now` as the value to be echoed.
    /// `padding_size` is the number of 32-bit words of padding.
    pub fn new_request(ssrc: u32, padding_size: u32, now: u64) -> (echo: RttEcho)
        ensures
            echo == (RttEcho {
                subtype: Subtype::EchoRequest,
                ssrc,
                timestamp: now,
                processing_delay: 0,
                padding_size,
            }),
    {
        RttEcho {
            subtype: Subtype::EchoRequest,
            ssrc,
            timestamp: now,
            processing_delay: 0,
            padding_size,
        }
    }

    /// A response that echoes `timestamp`.
    pub fn new_response(ssrc: u32, timestamp: u64, processing_delay: u64, padding_size: u32) -> (echo:
        RttEcho)
        ensures
            echo == (RttEcho {
                subtype: Subtype::EchoResponse,
                ssrc,
                timestamp,
                processing_delay,
                padding_size,
            }),
    {
        RttEcho { subtype: Subtype::EchoResponse, ssrc, timestamp, processing_delay, padding_size }
    }

    /// The value of the length field for a message with that much padding,
    /// where the field can hold it.
    pub fn calculate_length(padding_size: u32) -> (length: Option<u16>)
        ensures
            padding_size <= MAX_PADDING_WORDS ==> length == Some(
                (ECHO_FIXED_LENGTH + padding_size) as u16,
            ),
            padding_size > MAX_PADDING_WORDS ==> length.is_none(),
    {
        if padding_size > MAX_PADDING_WORDS {
            None
        } else {
            Some(ECHO_FIXED_LENGTH + padding_size as u16)
        }
    }

    /// Reads an echo message from the start of `buf`.
    pub fn unmarshal(buf: &[u8]) -> (r: Result<(RttEcho, usize), CodecError>)
        ensures
            r == RttEcho::parse(buf@),
    {
        match Header::read_frame(buf, PacketType::App.code()) {
            Err(e) => Err(e),
            Ok(h) => {
                if h.packet_specific != 2 && h.packet_specific != 3 {
                    return Err(CodecError::UnknownPacketType);
                }
                let size: usize = h.packet_size() + 4;
                if h.length < ECHO_FIXED_LENGTH || buf.len() < size {
                    return Err(CodecError::Truncated);
                }
                if get_u32(buf, 8) != RIST_NAME {
                    return Err(CodecError::UnknownPacketType);
                }
                let subtype = if h.packet_specific == 2 {
                    Subtype::EchoRequest
                } else {
                    Subtype::EchoResponse
                };
                let echo = RttEcho {
                    subtype,
                    ssrc: get_u32(buf, 4),
                    timestamp: get_u64(buf, 12),
                    processing_delay: get_u64(buf, 20),
                    padding_size: (h.length - ECHO_FIXED_LENGTH) as u32,
                };
                Ok((echo, size))
            },
        }
    }
}

impl Marshal for RttEcho {
    open spec fn wire(&self) -> Seq<u8> {
        self.spec_header().wire() + be32(self.ssrc) + be32(RIST_NAME) + be64(self.timestamp) + be64(
            self.processing_delay,
        ) + zeros(4 * self.padding_size as nat)
    }

    open spec fn encodable(&self) -> bool {
        RttEcho::is_echo(self.subtype) && self.padding_size <= MAX_PADDING_WORDS
    }

    fn marshal_size(&self) -> (n: usize)
        ensures
            n == 28 + 4 * self.padding_size,
    {
        ECHO_FIXED_SIZE + 4 * (self.padding_size as usize)
    }

    fn marshal(&self, buf: &mut [u8]) -> (r: Result<usize, CodecError>) {
        let available: u64 = buf.len() as u64;
        let needed: u64 = 28 + 4 * (self.padding_size as u64);
        if available < needed {
            return Err(CodecError::BufferTooSmall);
        }
        let echo: bool = match self.subtype {
            Subtype::EchoRequest => true,
            Subtype::EchoResponse => true,
            _ => false,
        };
        if !echo || self.padding_size > MAX_PADDING_WORDS {
            return Err(CodecError::FieldOutOfRange);
        }
        let length: u16 = ECHO_FIXED_LENGTH + self.padding_size as u16;
        let header = Header::new(self.subtype.code(), PacketType::App.code(), length);
        let written = header.marshal(buf);
        assert(written is Ok);
        put_u32(buf, 4, self.ssrc);
        put_u32(buf, 8, RIST_NAME);
        put_u64(buf, 12, self.timestamp);
        put_u64(buf, 20, self.processing_delay);
        let padding: usize = 4 * (self.padding_size as usize);
        put_zeros(buf, ECHO_FIXED_SIZE, padding);
        assert(buf@ =~= overwrite(old(buf)@, 0, self.wire()));
        Ok(ECHO_FIXED_SIZE + padding)
    }
}

/// Decoding the encoding of an encodable echo message gives the message back,
/// whatever follows it in the buffer.
pub proof fn lemma_rtt_echo_roundtrip(echo: RttEcho, rest: Seq<u8>)
    requires
        echo.encodable(),
    ensures
        echo.wire().len() == ECHO_FIXED_SIZE + 4 * echo.padding_size,
        RttEcho::parse(echo.wire() + rest) == Ok::<(RttEcho, usize), CodecError>(
            (echo, echo.wire().len() as usize),
        ),
{
    let b = echo.wire() + rest;
    assert(b.subrange(0, 4) =~= echo.spec_header().wire());
    lemma_frame_plain(
        b,
        echo.subtype.code_of(),
        PacketType::App.code_of(),
        (ECHO_FIXED_LENGTH + echo.padding_size) as u16,
    );
    assert(b.subrange(4, 8) =~= be32(echo.ssrc));
    lemma_field32(b, 4, echo.ssrc);
    assert(b.subrange(8, 12) =~= be32(RIST_NAME));
    lemma_field32(b, 8, RIST_NAME);
    assert(b.subrange(12, 20) =~= be64(echo.timestamp));
    lemma_field64(b, 12, echo.timestamp);
    assert(b.subrange(20, 28) =~= be64(echo.processing_delay));
    lemma_field64(b, 20, echo.processing_delay);
}

/// One range of lost packets: `seq_start` and the `nb_consecutive` packets
/// that follow it.
#[derive(Clone, Copy, Debug, PartialEq, Eq, Structural)]
pub struct PacketRangeRequest {
    /// Sequence number of the first lost packet of the range.
    pub seq_start: u16,
    /// Number of lost packets after the first. Zero asks for one packet.
    pub nb_consecutive: u16,
}

impl PacketRangeRequest {
    /// The `count` sequence numbers from `seq_start` on, modulo 2^16.
    pub open spec fn run(seq_start: u16, count: nat) -> Seq<u16> {
        Seq::new(count, |i: int| ((seq_start + i) % 0x1_0000) as u16)
    }

    /// The packets that the range asks for, from `seq_start` to
    /// `seq_start + nb_consecutive`, both included.
    pub open spec fn lost(&self) -> Seq<u16> {
        PacketRangeRequest::run(self.seq_start, (self.nb_consecutive + 1) as nat)
    }

    /// The sequence numbers that the range asks for, in rising order from
    /// `seq_start`.
    pub fn lost_sequence_numbers(&self) -> (lost: Vec<u16>)
        ensures
            lost@ == self.lost(),
    {
        let mut lost: Vec<u16> = Vec::new();
        let total: u32 = self.nb_consecutive as u32 + 1;
        let mut i: u32 = 0;
        while i < total
            invariant
                total == self.nb_consecutive + 1,
                i <= total,
                lost@ == PacketRangeRequest::run(self.seq_start, i as nat),
            decreases total - i,
        {
            lost.push(((self.seq_start as u32 + i) % 0x1_0000) as u16);
            i = i + 1;
            assert(lost@ =~= PacketRangeRequest::run(self.seq_start, i as nat));
        }
        lost
    }
}

impl WirePair for PacketRangeRequest {
    open spec fn pair(&self) -> (u16, u16) {
        (self.seq_start, self.nb_consecutive)
    }

    fn halves(&self) -> (p: (u16, u16)) {
        (self.seq_start, self.nb_consecutive)
    }

    fn from_halves(first: u16, second: u16) -> (x: PacketRangeRequest) {
        PacketRangeRequest { seq_start: first, nb_consecutive: second }
    }
}

/// A range-based NACK: any number of ranges for one media source.
#[derive(Clone, Debug, PartialEq, Eq)]
pub struct RangeBasedNACK {
    /// The media source that the request is about.
    pub ssrc: u32,
    /// The ranges.
    pub packet_ranges: Vec<PacketRangeRequest>,
}

/// What a range-based NACK is, apart from how its ranges are stored.
pub struct RangeBasedNACKView {
    pub ssrc: u32,
    pub packet_ranges: Seq<PacketRangeRequest>,
}

impl View for RangeBasedNACK {
    type V = RangeBasedNACKView;

    open spec fn view(&self) -> RangeBasedNACKView {
        RangeBasedNACKView { ssrc: self.ssrc, packet_ranges: self.packet_ranges@ }
    }
}

/// The ranges that a list of pairs stands for.
pub open spec fn ranges_of(pairs: Seq<(u16, u16)>) -> Seq<PacketRangeRequest> {
    Seq::new(
        pairs.len(),
        |i: int| PacketRangeRequest { seq_start: pairs[i].0, nb_consecutive: pairs[i].1 },
    )
}

impl RangeBasedNACKView {
    /// The common header: feedback, of the range-based kind, with a length of
    /// three words and one more for each range, minus one.
    pub open spec fn header(self) -> Header {
        Header::plain(
            Subtype::RangeBasedNACK.code_of(),
            PacketType::Feedback.code_of(),
            (self.packet_ranges.len() + 2) as u16,
        )
    }

    /// Header, source, RIST's name, and four bytes for each range.
    pub open spec fn wire(self) -> Seq<u8> {
        self.header().wire() + be32(self.ssrc) + be32(RIST_NAME) + pairs_wire(
            pairs_of(self.packet_ranges),
        )
    }

    /// The number of ranges fits the length field.
    pub open spec fn encodable(self) -> bool {
        self.packet_ranges.len() <= MAX_RANGES
    }

    /// What a buffer that starts with a range-based NACK decodes to.
    ///
    /// After the frame checks, another feedback kind is refused as unknown, a
    /// declared length under 12 bytes as truncated, and a name other than
    /// RIST's as unknown. Every word after the third is a range.
    pub open spec fn parse(b: Seq<u8>) -> Result<(RangeBasedNACKView, usize), CodecError> {
        match Header::frame(b, PacketType::Feedback.code_of()) {
            Err(e) => Err(e),
            Ok(h) => if h.packet_specific != 0 {
                Err(CodecError::UnknownPacketType)
            } else if h.packet_len() < RANGE_NACK_FIXED_SIZE {
                Err(CodecError::Truncated)
            } else if from_be32(b, 8) != RIST_NAME {
                Err(CodecError::UnknownPacketType)
            } else {
                Ok(
                    (
                        RangeBasedNACKView {
                            ssrc: from_be32(b, 4),
                            packet_ranges: ranges_of(parse_pairs(b, 12, (h.length - 2) as nat)),
                        },
                        h.packet_len() as usize,
                    ),
                )
            },
        }
    }
}

/// The lost packets that a list of ranges names, range after range.
pub open spec fn lost_of_ranges(ranges: Seq<PacketRangeRequest>) -> Seq<u16>
    decreases ranges.len(),
{
    if ranges.len() == 0 {
        Seq::empty()
    } else {
        lost_of_ranges(ranges.drop_last()) + ranges.last().lost()
    }
}

impl RangeBasedNACK {
    /// The sequence numbers of all packets that the message reports lost,
    /// range after range, each range in rising order.
    pub fn lost_sequence_numbers(&self) -> (lost: Vec<u16>)
        ensures
            lost@ == lost_of_ranges(self@.packet_ranges),
    {
        let mut lost: Vec<u16> = Vec::new();
        let n: usize = self.packet_ranges.len();
        let mut k: usize = 0;
        assert(self.packet_ranges@.take(0) =~= Seq::<PacketRangeRequest>::empty());
        while k < n
            invariant
                k <= n,
                n == self.packet_ranges@.len(),
                lost@ == lost_of_ranges(self.packet_ranges@.take(k as int)),
            decreases n - k,
        {
            let mut more: Vec<u16> = self.packet_ranges[k].lost_sequence_numbers();
            lost.append(&mut more);
            k = k + 1;
            assert(self.packet_ranges@.take(k as int).drop_last() =~= self.packet_ranges@.take(
                k - 1,
            ));
        }
        assert(self.packet_ranges@.take(n as int) =~= self.packet_ranges@);
        lost
    }

    /// The common header that is written before this message, where its
    /// length field can hold the number of ranges.
    pub fn header(&self) -> (h: Option<Header>)
        ensures
            self@.encodable() ==> h == Some(self@.header()),
            !self@.encodable() ==> h.is_none(),
    {
        let count: usize = self.packet_ranges.len();
        if count > MAX_RANGES {
            None
        } else {
            Some(
                Header::new(
                    Subtype::RangeBasedNACK.code(),
                    PacketType::Feedback.code(),
                    (count + 2) as u16,
                ),
            )
        }
    }

    /// The application name that is written behind the source: RIST's.
    pub fn name(&self) -> (name: u32)
        ensures
            name == RIST_NAME,
    {
        RIST_NAME
    }

    /// A request about `ssrc` with the given ranges.
    pub fn new(ssrc: u32, packet_ranges: &[PacketRangeRequest]) -> (nack: RangeBasedNACK)
        ensures
            nack@ == (RangeBasedNACKView { ssrc, packet_ranges: packet_ranges@ }),
    {
        RangeBasedNACK { ssrc, packet_ranges: slice_to_vec(packet_ranges) }
    }

    /// Reads a range-based NACK from the start of `buf`.
    pub fn unmarshal(buf: &[u8]) -> (r: Result<(RangeBasedNACK, usize), CodecError>)
        ensures
            match (r, RangeBasedNACKView::parse(buf@)) {
                (Ok((p, n)), Ok((v, m))) => p@ == v && n == m,
                (Err(e), Err(f)) => e == f,
                _ => false,
            },
    {
        match Header::read_frame(buf, PacketType::Feedback.code()) {
            Err(e) => Err(e),
            Ok(h) => {
                if h.packet_specific != 0 {
                    return Err(CodecError::UnknownPacketType);
                }
                let size: usize = h.packet_size();
                if size < RANGE_NACK_FIXED_SIZE {
                    return Err(CodecError::Truncated);
                }
                if get_u32(buf, 8) != RIST_NAME {
                    return Err(CodecError::UnknownPacketType);
                }
                let count: usize = (h.length - 2) as usize;
                let packet_ranges: Vec<PacketRangeRequest> = get_pairs(buf, 12, count);
                let nack = RangeBasedNACK { ssrc: get_u32(buf, 4), packet_ranges };
                proof {
                    let pairs = parse_pairs(buf@, 12, count as nat);
                    assert forall|i: int| 0 <= i < count implies nack.packet_ranges@[i]
                        == ranges_of(pairs)[i] by {
                        assert(pairs_of(nack.packet_ranges@)[i] == pairs[i]);
                    }
                    assert(pairs_of(nack.packet_ranges@).len() == count);
                    assert(nack.packet_ranges@ =~= ranges_of(pairs));
                }
                Ok((nack, size))
            },
        }
    }
}

impl Marshal for RangeBasedNACK {
    open spec fn wire(&self) -> Seq<u8> {
        self@.wire()
    }

    open spec fn encodable(&self) -> bool {
        self@.encodable()
    }

    fn marshal_size(&self) -> (n: usize) {
        RANGE_NACK_FIXED_SIZE + 4 * self.packet_ranges.len()
    }

    fn marshal(&self, buf: &mut [u8]) -> (r: Result<usize, CodecError>) {
        let count: usize = self.packet_ranges.len();
        if buf.len() < RANGE_NACK_FIXED_SIZE || (buf.len() - RANGE_NACK_FIXED_SIZE) / 4 < count {
            return Err(CodecError::BufferTooSmall);
        }
        if count > MAX_RANGES {
            return Err(CodecError::FieldOutOfRange);
        }
        let header = Header::new(
            Subtype::RangeBasedNACK.code(),
            PacketType::Feedback.code(),
            (count + 2) as u16,
        );
        let written = header.marshal(buf);
        assert(written is Ok);
        put_u32(buf, 4, self.ssrc);
        put_u32(buf, 8, RIST_NAME);
        put_pairs(buf, 12, &self.packet_ranges);
        assert(buf@ =~= overwrite(old(buf)@, 0, self.wire()));
        Ok(RANGE_NACK_FIXED_SIZE + 4 * count)
    }
}

/// Decoding the encoding of an encodable range-based NACK gives the message
/// back, whatever follows it in the buffer.
pub proof fn lemma_range_nack_roundtrip(nack: RangeBasedNACKView, rest: Seq<u8>)
    requires
        nack.encodable(),
    ensures
        nack.wire().len() == RANGE_NACK_FIXED_SIZE + 4 * nack.packet_ranges.len(),
        RangeBasedNACKView::parse(nack.wire() + rest) == Ok::<
            (RangeBasedNACKView, usize),
            CodecError,
        >((nack, nack.wire().len() as usize)),
{
    let b = nack.wire() + rest;
    let n = nack.packet_ranges.len() as int;
    let pairs = pairs_of(nack.packet_ranges);
    assert(b.subrange(0, 4) =~= nack.header().wire());
    lemma_frame_plain(b, 0, PacketType::Feedback.code_of(), (n + 2) as u16);
    assert(b.subrange(4, 8) =~= be32(nack.ssrc));
    lemma_field32(b, 4, nack.ssrc);
    assert(b.subrange(8, 12) =~= be32(RIST_NAME));
    lemma_field32(b, 8, RIST_NAME);
    assert(b.subrange(12, 12 + 4 * n) =~= pairs_wire(pairs));
    lemma_pairs_at(b, 12, pairs);
    assert(ranges_of(pairs) =~= nack.packet_ranges);
}

} // verus!
