//! Compound packets: several RTCP packets, one behind the other, in one
//! datagram.
use vstd::prelude::*;
use vstd::slice::slice_subrange;
use crate::error::CodecError;
use crate::marshal::Marshal;
use crate::rtcp::feedback::nack::{lemma_generic_nack_roundtrip, GenericNack, GenericNackView};
use crate::rtcp::feedback::rist::{
    lemma_range_nack_roundtrip, lemma_rtt_echo_roundtrip, RangeBasedNACK, RangeBasedNACKView,
    RttEcho,
};
use crate::rtcp::header::{lemma_header_at_start, Header, PacketType};
use crate::rtcp::receiver_report::{lemma_receiver_report_roundtrip, ReceiverReport};
use crate::rtcp::sdes::{lemma_sdes_roundtrip, Sdes, SdesView};
use crate::rtcp::sender_report::{lemma_sender_report_roundtrip, SenderReport};

verus! {

/// One RTCP packet of any of the kinds that this crate knows.
#[derive(Clone, Debug, PartialEq, Eq)]
pub enum RtcpPacket {
    SenderReport(SenderReport),
    ReceiverReport(ReceiverReport),
    Sdes(Sdes),
    GenericNack(GenericNack),
    RangeBasedNack(RangeBasedNACK),
    RttEcho(RttEcho),
}

/// What such a packet is, apart from how its lists are stored.
pub enum RtcpPacketView {
    SenderReport(SenderReport),
    ReceiverReport(ReceiverReport),
    Sdes(SdesView),
    GenericNack(GenericNackView),
    RangeBasedNack(RangeBasedNACKView),
    RttEcho(RttEcho),
}

impl View for RtcpPacket {
    type V = RtcpPacketView;

    open spec fn view(&self) -> RtcpPacketView {
        match self {
            RtcpPacket::SenderReport(p) => RtcpPacketView::SenderReport(*p),
            RtcpPacket::ReceiverReport(p) => RtcpPacketView::ReceiverReport(*p),
            RtcpPacket::Sdes(p) => RtcpPacketView::Sdes(p@),
            RtcpPacket::GenericNack(p) => RtcpPacketView::GenericNack(p@),
            RtcpPacket::RangeBasedNack(p) => RtcpPacketView::RangeBasedNack(p@),
            RtcpPacket::RttEcho(p) => RtcpPacketView::RttEcho(*p),
        }
    }
}

impl RtcpPacketView {
    /// The bytes that stand for the packet on the wire.
    pub open spec fn wire(self) -> Seq<u8> {
        match self {
            RtcpPacketView::SenderReport(p) => p.wire(),
            RtcpPacketView::ReceiverReport(p) => p.wire(),
            RtcpPacketView::Sdes(p) => p.wire(),
            RtcpPacketView::GenericNack(p) => p.wire(),
            RtcpPacketView::RangeBasedNack(p) => p.wire(),
            RtcpPacketView::RttEcho(p) => p.wire(),
        }
    }

    /// Every field of the packet fits the place that the format gives it.
    pub open spec fn encodable(self) -> bool {
        match self {
            RtcpPacketView::SenderReport(p) => p.encodable(),
            RtcpPacketView::ReceiverReport(p) => p.encodable(),
            RtcpPacketView::Sdes(p) => p.chunk.encodable(),
            RtcpPacketView::GenericNack(p) => p.encodable(),
            RtcpPacketView::RangeBasedNack(p) => p.encodable(),
            RtcpPacketView::RttEcho(p) => p.encodable(),
        }
    }
}

/// The encodings of a list of packets, one behind the other.
pub open spec fn wires(packets: Seq<RtcpPacketView>) -> Seq<u8>
    decreases packets.len(),
{
    if packets.len() == 0 {
        Seq::empty()
    } else {
        packets[0].wire() + wires(packets.drop_first())
    }
}

/// A list of packets as the decoder reports them.
pub open spec fn as_decoded(packets: Seq<RtcpPacketView>) -> Seq<DecodedView> {
    Seq::new(packets.len(), |i: int| DecodedView::Packet(packets[i]))
}

/// What one stretch of a compound packet turned out to be.
#[derive(Clone, Debug, PartialEq, Eq)]
pub enum Decoded {
    /// A packet of a known kind.
    Packet(RtcpPacket),
    /// A packet of a type or subtype that this crate does not know. It was
    /// stepped over.
    Ignored { packet_type: u8, packet_specific: u8 },
}

/// What such a stretch is, apart from how lists are stored.
pub enum DecodedView {
    Packet(RtcpPacketView),
    Ignored { packet_type: u8, packet_specific: u8 },
}

impl View for Decoded {
    type V = DecodedView;

    open spec fn view(&self) -> DecodedView {
        match self {
            Decoded::Packet(p) => DecodedView::Packet(p@),
            Decoded::Ignored { packet_type, packet_specific } => DecodedView::Ignored {
                packet_type: *packet_type,
                packet_specific: *packet_specific,
            },
        }
    }
}

/// The views of a list of decoded stretches.
pub open spec fn views(items: Seq<Decoded>) -> Seq<DecodedView> {
    Seq::new(items.len(), |i: int| items[i]@)
}

/// What the decoder that packet type and specific bits select makes of `b`.
/// A type that is none of the five gives `UnknownPacketType`.
pub open spec fn parse_known(b: Seq<u8>, packet_type: u8, packet_specific: u8) -> Result<
    (RtcpPacketView, usize),
    CodecError,
> {
    if packet_type == PacketType::SenderReport.code_of() {
        match SenderReport::parse(b) {
            Ok((p, n)) => Ok((RtcpPacketView::SenderReport(p), n)),
            Err(e) => Err(e),
        }
    } else if packet_type == PacketType::ReceiverReport.code_of() {
        match ReceiverReport::parse(b) {
            Ok((p, n)) => Ok((RtcpPacketView::ReceiverReport(p), n)),
            Err(e) => Err(e),
        }
    } else if packet_type == PacketType::Sdes.code_of() {
        match SdesView::parse(b) {
            Ok((p, n)) => Ok((RtcpPacketView::Sdes(p), n)),
            Err(e) => Err(e),
        }
    } else if packet_type == PacketType::App.code_of() {
        match RttEcho::parse(b) {
            Ok((p, n)) => Ok((RtcpPacketView::RttEcho(p), n)),
            Err(e) => Err(e),
        }
    } else if packet_type == PacketType::Feedback.code_of() {
        if packet_specific == crate::rtcp::feedback::nack::GENERIC_NACK_CODE {
            match GenericNackView::parse(b) {
                Ok((p, n)) => Ok((RtcpPacketView::GenericNack(p), n)),
                Err(e) => Err(e),
            }
        } else {
            match RangeBasedNACKView::parse(b) {
                Ok((p, n)) => Ok((RtcpPacketView::RangeBasedNack(p), n)),
                Err(e) => Err(e),
            }
        }
    } else {
        Err(CodecError::UnknownPacketType)
    }
}

/// What the packet at the start of `b` decodes to, and how many bytes it
/// takes.
///
/// The common header is read first, and the buffer must hold the
/// `4 * (length + 1)` bytes that it declares. A packet that its decoder
/// refuses as unknown is stepped over by that many bytes; any other refusal
/// is an error.
#[verifier::opaque]
pub open spec fn parse_one(b: Seq<u8>) -> Result<(DecodedView, usize), CodecError> {
    match Header::parse(b) {
        Err(e) => Err(e),
        Ok((h, _)) => if b.len() < h.packet_len() {
            Err(CodecError::Truncated)
        } else {
            match parse_known(b, h.packet_type, h.packet_specific) {
                Ok((p, n)) => Ok((DecodedView::Packet(p), n)),
                Err(CodecError::UnknownPacketType) => Ok(
                    (
                        DecodedView::Ignored {
                            packet_type: h.packet_type,
                            packet_specific: h.packet_specific,
                        },
                        h.packet_len() as usize,
                    ),
                ),
                Err(e) => Err(e),
            }
        },
    }
}

/// `items` put before what `rest` decoded to, or the error of `rest`.
pub open spec fn prepend(items: Seq<DecodedView>, rest: Result<Seq<DecodedView>, CodecError>)
    -> Result<Seq<DecodedView>, CodecError> {
    match rest {
        Ok(more) => Ok(items + more),
        Err(e) => Err(e),
    }
}

/// What a compound packet decodes to: the packets in it, in order, until the
/// buffer is used up. The first error ends the decoding, and nothing of what
/// came before it is kept.
pub open spec fn parse_compound(b: Seq<u8>) -> Result<Seq<DecodedView>, CodecError>
    decreases b.len(),
{
    if b.len() == 0 {
        Ok(Seq::empty())
    } else {
        match parse_one(b) {
            Err(e) => Err(e),
            Ok((item, n)) => if 0 < n <= b.len() {
                prepend(seq![item], parse_compound(b.skip(n as int)))
            } else {
                Err(CodecError::Truncated)
            },
        }
    }
}

/// A packet that decodes takes at least four bytes and no more than the
/// buffer holds.
pub proof fn lemma_parse_one_advances(b: Seq<u8>)
    ensures
        parse_one(b) matches Ok((_, n)) ==> 4 <= n <= b.len(),
{
    reveal(parse_one);
}

/// Decodes the packet at the start of `buf`.
pub fn decode_one(buf: &[u8]) -> (r: Result<(Decoded, usize), CodecError>)
    ensures
        match (r, parse_one(buf@)) {
            (Ok((p, n)), Ok((v, m))) => p@ == v && n == m,
            (Err(e), Err(f)) => e == f,
            _ => false,
        },
{
    reveal(parse_one);
    let h = match Header::unmarshal(buf) {
        Err(e) => { return Err(e); },
        Ok((h, _)) => h,
    };
    let size: usize = h.packet_size();
    if buf.len() < size {
        return Err(CodecError::Truncated);
    }
    let known: Result<(RtcpPacket, usize), CodecError> = if h.packet_type
        == PacketType::SenderReport.code() {
        match SenderReport::unmarshal(buf) {
            Ok((p, n)) => Ok((RtcpPacket::SenderReport(p), n)),
            Err(e) => Err(e),
        }
    } else if h.packet_type == PacketType::ReceiverReport.code() {
        match ReceiverReport::unmarshal(buf) {
            Ok((p, n)) => Ok((RtcpPacket::ReceiverReport(p), n)),
            Err(e) => Err(e),
        }
    } else if h.packet_type == PacketType::Sdes.code() {
        match Sdes::unmarshal(buf) {
            Ok((p, n)) => Ok((RtcpPacket::Sdes(p), n)),
            Err(e) => Err(e),
        }
    } else if h.packet_type == PacketType::App.code() {
        match RttEcho::unmarshal(buf) {
            Ok((p, n)) => Ok((RtcpPacket::RttEcho(p), n)),
            Err(e) => Err(e),
        }
    } else if h.packet_type == PacketType::Feedback.code() {
        if h.packet_specific == crate::rtcp::feedback::nack::GENERIC_NACK_CODE {
            match GenericNack::unmarshal(buf) {
                Ok((p, n)) => Ok((RtcpPacket::GenericNack(p), n)),
                Err(e) => Err(e),
            }
        } else {
            match RangeBasedNACK::unmarshal(buf) {
                Ok((p, n)) => Ok((RtcpPacket::RangeBasedNack(p), n)),
                Err(e) => Err(e),
            }
        }
    } else {
        Err(CodecError::UnknownPacketType)
    };
    match known {
        Ok((p, n)) => Ok((Decoded::Packet(p), n)),
        Err(CodecError::UnknownPacketType) => Ok(
            (
                Decoded::Ignored {
                    packet_type: h.packet_type,
                    packet_specific: h.packet_specific,
                },
                size,
            ),
        ),
        Err(e) => Err(e),
    }
}

/// Decodes a compound packet: every packet in `buf`, in order. Packets of an
/// unknown type or subtype are reported and stepped over; any other fault
/// ends the decoding with its error.
pub fn decode_compound(buf: &[u8]) -> (r: Result<Vec<Decoded>, CodecError>)
    ensures
        match (r, parse_compound(buf@)) {
            (Ok(items), Ok(v)) => views(items@) == v,
            (Err(e), Err(f)) => e == f,
            _ => false,
        },
{
    let mut items: Vec<Decoded> = Vec::new();
    let mut pos: usize = 0;
    let total: usize = buf.len();
    assert(buf@.skip(0) =~= buf@);
    assert(views(items@) + parse_compound(buf@)->Ok_0 =~= parse_compound(buf@)->Ok_0);
    while pos < total
        invariant
            total == buf@.len(),
            pos <= total,
            parse_compound(buf@) == prepend(views(items@), parse_compound(buf@.skip(pos as int))),
        decreases total - pos,
    {
        let rest = slice_subrange(buf, pos, total);
        let ghost tail = buf@.skip(pos as int);
        assert(rest@ =~= tail);
        proof {
            lemma_parse_one_advances(tail);
        }
        match decode_one(rest) {
            Err(e) => {
                return Err(e);
            },
            Ok((item, n)) => {
                proof {
                    assert(tail.skip(n as int) =~= buf@.skip(pos + n));
                    let before = views(items@);
                    let after = views(items@.push(item));
                    assert(after =~= before + seq![item@]);
                    let more = parse_compound(buf@.skip(pos + n));
                    if let Ok(m) = more {
                        assert(before + (seq![item@] + m) =~= after + m);
                    }
                }
                items.push(item);
                pos = pos + n;
            },
        }
    }
    proof {
        assert(buf@.skip(pos as int).len() == 0);
        assert(views(items@) + Seq::<DecodedView>::empty() =~= views(items@));
    }
    Ok(items)
}

/// Where the first packet of a buffer decodes and the rest of the buffer
/// decodes too, the buffer decodes to the one followed by the others.
pub proof fn lemma_compound_step(b: Seq<u8>, item: DecodedView, n: usize, more: Seq<DecodedView>)
    requires
        parse_one(b) == Ok::<(DecodedView, usize), CodecError>((item, n)),
        parse_compound(b.skip(n as int)) == Ok::<Seq<DecodedView>, CodecError>(more),
    ensures
        parse_compound(b) == Ok::<Seq<DecodedView>, CodecError>(seq![item] + more),
{
    lemma_parse_one_advances(b);
}

/// An encoded sender report at the start of a buffer decodes to the report.
proof fn lemma_one_sender_report(p: SenderReport, rest: Seq<u8>)
    ensures
        4 <= RtcpPacketView::SenderReport(p).wire().len() <= 0xffff_ffff,
        parse_one(RtcpPacketView::SenderReport(p).wire() + rest) == Ok::<
            (DecodedView, usize),
            CodecError,
        >(
            (
                DecodedView::Packet(RtcpPacketView::SenderReport(p)),
                RtcpPacketView::SenderReport(p).wire().len() as usize,
            ),
        ),
{
    reveal(parse_one);
    let b = p.wire() + rest;
    lemma_sender_report_roundtrip(p, rest);
    assert(b.subrange(0, 4) =~= SenderReport::spec_header().wire());
    lemma_header_at_start(b, SenderReport::spec_header());
}

/// An encoded receiver report at the start of a buffer decodes to the report.
proof fn lemma_one_receiver_report(p: ReceiverReport, rest: Seq<u8>)
    requires
        p.encodable(),
    ensures
        4 <= RtcpPacketView::ReceiverReport(p).wire().len() <= 0xffff_ffff,
        parse_one(RtcpPacketView::ReceiverReport(p).wire() + rest) == Ok::<
            (DecodedView, usize),
            CodecError,
        >(
            (
                DecodedView::Packet(RtcpPacketView::ReceiverReport(p)),
                RtcpPacketView::ReceiverReport(p).wire().len() as usize,
            ),
        ),
{
    reveal(parse_one);
    let b = p.wire() + rest;
    lemma_receiver_report_roundtrip(p, rest);
    assert(b.subrange(0, 4) =~= p.spec_header().wire());
    lemma_header_at_start(b, p.spec_header());
}

/// An encoded source description at the start of a buffer decodes to the
/// description.
proof fn lemma_one_sdes(p: SdesView, rest: Seq<u8>)
    requires
        p.chunk.encodable(),
    ensures
        4 <= RtcpPacketView::Sdes(p).wire().len() <= 0xffff_ffff,
        parse_one(RtcpPacketView::Sdes(p).wire() + rest) == Ok::<
            (DecodedView, usize),
            CodecError,
        >(
            (
                DecodedView::Packet(RtcpPacketView::Sdes(p)),
                RtcpPacketView::Sdes(p).wire().len() as usize,
            ),
        ),
{
    reveal(parse_one);
    let b = p.wire() + rest;
    lemma_sdes_roundtrip(p, rest);
    vstd::utf8::is_ascii_chars_encode_utf8(p.chunk.user_and_domain);
    assert(b.subrange(0, 4) =~= p.header().wire());
    lemma_header_at_start(b, p.header());
}

/// An encoded generic NACK at the start of a buffer decodes to the NACK.
proof fn lemma_one_generic_nack(p: GenericNackView, rest: Seq<u8>)
    requires
        p.encodable(),
    ensures
        4 <= RtcpPacketView::GenericNack(p).wire().len() <= 0xffff_ffff,
        parse_one(RtcpPacketView::GenericNack(p).wire() + rest) == Ok::<
            (DecodedView, usize),
            CodecError,
        >(
            (
                DecodedView::Packet(RtcpPacketView::GenericNack(p)),
                RtcpPacketView::GenericNack(p).wire().len() as usize,
            ),
        ),
{
    reveal(parse_one);
    let b = p.wire() + rest;
    lemma_generic_nack_roundtrip(p, rest);
    assert(b.subrange(0, 4) =~= p.header().wire());
    lemma_header_at_start(b, p.header());
}

/// An encoded range-based NACK at the start of a buffer decodes to the
/// NACK.
proof fn lemma_one_range_nack(p: RangeBasedNACKView, rest: Seq<u8>)
    requires
        p.encodable(),
    ensures
        4 <= RtcpPacketView::RangeBasedNack(p).wire().len() <= 0xffff_ffff,
        parse_one(RtcpPacketView::RangeBasedNack(p).wire() + rest) == Ok::<
            (DecodedView, usize),
            CodecError,
        >(
            (
                DecodedView::Packet(RtcpPacketView::RangeBasedNack(p)),
                RtcpPacketView::RangeBasedNack(p).wire().len() as usize,
            ),
        ),
{
    reveal(parse_one);
    let b = p.wire() + rest;
    lemma_range_nack_roundtrip(p, rest);
    assert(b.subrange(0, 4) =~= p.header().wire());
    lemma_header_at_start(b, p.header());
}

/// An encoded echo message at the start of a buffer decodes to the message.
proof fn lemma_one_echo(p: RttEcho, rest: Seq<u8>)
    requires
        p.encodable(),
    ensures
        4 <= RtcpPacketView::RttEcho(p).wire().len() <= 0xffff_ffff,
        parse_one(RtcpPacketView::RttEcho(p).wire() + rest) == Ok::<
            (DecodedView, usize),
            CodecError,
        >(
            (
                DecodedView::Packet(RtcpPacketView::RttEcho(p)),
                RtcpPacketView::RttEcho(p).wire().len() as usize,
            ),
        ),
{
    reveal(parse_one);
    let b = p.wire() + rest;
    lemma_rtt_echo_roundtrip(p, rest);
    assert(b.subrange(0, 4) =~= p.spec_header().wire());
    lemma_header_at_start(b, p.spec_header());
}

/// An encoded packet of any known kind at the start of a buffer decodes to
/// that packet and takes as many bytes as its encoding has.
pub proof fn lemma_one_packet(packet: RtcpPacketView, rest: Seq<u8>)
    requires
        packet.encodable(),
    ensures
        4 <= packet.wire().len() <= 0xffff_ffff,
        parse_one(packet.wire() + rest) == Ok::<(DecodedView, usize), CodecError>(
            (DecodedView::Packet(packet), packet.wire().len() as usize),
        ),
{
    match packet {
        RtcpPacketView::SenderReport(p) => lemma_one_sender_report(p, rest),
        RtcpPacketView::ReceiverReport(p) => lemma_one_receiver_report(p, rest),
        RtcpPacketView::Sdes(p) => lemma_one_sdes(p, rest),
        RtcpPacketView::GenericNack(p) => lemma_one_generic_nack(p, rest),
        RtcpPacketView::RangeBasedNack(p) => lemma_one_range_nack(p, rest),
        RtcpPacketView::RttEcho(p) => lemma_one_echo(p, rest),
    }
}

/// A datagram made of the encodings of encodable packets, one behind the
/// other, decodes to those packets in their order.
pub proof fn lemma_compound_roundtrip(packets: Seq<RtcpPacketView>)
    requires
        forall|i: int| 0 <= i < packets.len() ==> (#[trigger] packets[i]).encodable(),
    ensures
        parse_compound(wires(packets)) == Ok::<Seq<DecodedView>, CodecError>(as_decoded(packets)),
    decreases packets.len(),
{
    if packets.len() == 0 {
        assert(as_decoded(packets) =~= Seq::empty());
    } else {
        let first = packets[0];
        let others = packets.drop_first();
        let tail = wires(others);
        lemma_one_packet(first, tail);
        lemma_compound_roundtrip(others);
        assert((first.wire() + tail).skip(first.wire().len() as int) =~= tail);
        lemma_compound_step(
            first.wire() + tail,
            DecodedView::Packet(first),
            first.wire().len() as usize,
            as_decoded(others),
        );
        assert(seq![DecodedView::Packet(first)] + as_decoded(others) =~= as_decoded(packets));
    }
}

/// A packet of a type that is none of the five is stepped over, however it
/// is filled, if its header is sound and its body as long as declared.
pub proof fn lemma_one_unknown(unknown: Header, body: Seq<u8>, rest: Seq<u8>)
    requires
        unknown.encodable(),
        unknown.version == crate::rtcp::header::VERSION,
        PacketType::of_code(unknown.packet_type).is_none(),
        body.len() == 4 * unknown.length,
    ensures
        parse_one(unknown.wire() + body + rest) == Ok::<(DecodedView, usize), CodecError>(
            (
                DecodedView::Ignored {
                    packet_type: unknown.packet_type,
                    packet_specific: unknown.packet_specific,
                },
                (4 + body.len()) as usize,
            ),
        ),
{
    reveal(parse_one);
    let b = unknown.wire() + body + rest;
    assert(b.subrange(0, 4) =~= unknown.wire());
    lemma_header_at_start(b, unknown);
}

/// Three stretches of bytes, each of which decodes as one packet where it
/// stands, decode together to the three packets.
pub proof fn lemma_compound_of_three(
    b1: Seq<u8>,
    b2: Seq<u8>,
    b3: Seq<u8>,
    i1: DecodedView,
    i2: DecodedView,
    i3: DecodedView,
)
    requires
        b1.len() <= usize::MAX,
        b2.len() <= usize::MAX,
        b3.len() <= usize::MAX,
        parse_one(b1 + (b2 + b3)) == Ok::<(DecodedView, usize), CodecError>(
            (i1, b1.len() as usize),
        ),
        parse_one(b2 + b3) == Ok::<(DecodedView, usize), CodecError>((i2, b2.len() as usize)),
        parse_one(b3 + Seq::<u8>::empty()) == Ok::<(DecodedView, usize), CodecError>(
            (i3, b3.len() as usize),
        ),
    ensures
        parse_compound(b1 + b2 + b3) == Ok::<Seq<DecodedView>, CodecError>(seq![i1, i2, i3]),
{
    let tail = b2 + b3;
    let all = b1 + b2 + b3;
    assert(b3 + Seq::<u8>::empty() =~= b3);
    assert(b3.skip(b3.len() as int) =~= Seq::<u8>::empty());
    lemma_compound_step(b3, i3, b3.len() as usize, Seq::empty());
    assert(seq![i3] + Seq::<DecodedView>::empty() =~= seq![i3]);
    assert(tail.skip(b2.len() as int) =~= b3);
    lemma_compound_step(tail, i2, b2.len() as usize, seq![i3]);
    assert(seq![i2] + seq![i3] =~= seq![i2, i3]);
    assert(all =~= b1 + tail);
    assert(all.skip(b1.len() as int) =~= tail);
    lemma_compound_step(all, i1, b1.len() as usize, seq![i2, i3]);
    assert(seq![i1] + seq![i2, i3] =~= seq![i1, i2, i3]);
}

/// A packet of an unknown type between two known packets does not end the
/// decoding: a sender report, then a header of version 2 with a type that is
/// none of the five and the body that it declares, then an encodable generic
/// NACK, decode to the report, a notice of the packet that was stepped over,
/// and the NACK.
pub proof fn lemma_unknown_type_is_skipped(
    report: SenderReport,
    unknown: Header,
    body: Seq<u8>,
    nack: GenericNackView,
)
    requires
        unknown.encodable(),
        unknown.version == crate::rtcp::header::VERSION,
        PacketType::of_code(unknown.packet_type).is_none(),
        body.len() == 4 * unknown.length,
        nack.encodable(),
    ensures
        parse_compound(report.wire() + (unknown.wire() + body) + nack.wire()) == Ok::<
            Seq<DecodedView>,
            CodecError,
        >(
            seq![
                DecodedView::Packet(RtcpPacketView::SenderReport(report)),
                DecodedView::Ignored {
                    packet_type: unknown.packet_type,
                    packet_specific: unknown.packet_specific,
                },
                DecodedView::Packet(RtcpPacketView::GenericNack(nack)),
            ],
        ),
{
    let b1 = report.wire();
    let b2 = unknown.wire() + body;
    let b3 = nack.wire();
    lemma_one_packet(RtcpPacketView::SenderReport(report), b2 + b3);
    assert(b2.len() == 4 + body.len()) by {
        assert(unknown.wire().len() == 4);
    }
    lemma_one_unknown(unknown, body, b3);
    lemma_one_packet(RtcpPacketView::GenericNack(nack), Seq::empty());
    lemma_compound_of_three(
        b1,
        b2,
        b3,
        DecodedView::Packet(RtcpPacketView::SenderReport(report)),
        DecodedView::Ignored {
            packet_type: unknown.packet_type,
            packet_specific: unknown.packet_specific,
        },
        DecodedView::Packet(RtcpPacketView::GenericNack(nack)),
    );
}

} // verus!
