//! Receiver reports: reception statistics from a participant that does not
//! send media. RIST sends them with one report block or with none.
use vstd::prelude::*;
use crate::error::CodecError;
use crate::marshal::Marshal;
use crate::rtcp::header::{lemma_frame_plain, Header, PacketType};
use crate::rtcp::report_block::{lemma_report_block_at, ReportBlock, MAX_PACKETS_LOST};
use crate::wire::{be32, from_be32, get_u32, lemma_field32, overwrite, put_u32};

verus! {

/// Value of the length field of a report without a block: two words, minus
/// one.
pub const EMPTY_RR_LENGTH: u16 = 1;

/// Value of the length field of a report with its block: eight words, minus
/// one.
pub const RR_LENGTH: u16 = 7;

/// Bytes that a report without a block takes.
pub const EMPTY_RR_SIZE: usize = 8;

/// Bytes that a report with its block takes.
pub const RR_SIZE: usize = 32;

/// A receiver report.
#[derive(Clone, Copy, Debug, PartialEq, Eq)]
pub struct ReceiverReport {
    /// The source that sends this report.
    pub ssrc_sender: u32,
    /// The statistics, where there are any.
    pub report_block: Option<ReportBlock>,
}

impl ReceiverReport {
    /// The common header of this report: a block count of one or of none.
    pub open spec fn spec_header(&self) -> Header {
        match self.report_block {
            Some(_) => Header::plain(1, PacketType::ReceiverReport.code_of(), RR_LENGTH),
            None => Header::plain(0, PacketType::ReceiverReport.code_of(), EMPTY_RR_LENGTH),
        }
    }

    /// What a buffer that starts with a receiver report decodes to.
    ///
    /// After the frame checks, a block count above one is refused as unknown,
    /// and a declared length under 8 bytes, or under 32 with a block, as
    /// truncated. The whole declared length counts as read.
    pub open spec fn parse(b: Seq<u8>) -> Result<(ReceiverReport, usize), CodecError> {
        match Header::frame(b, PacketType::ReceiverReport.code_of()) {
            Err(e) => Err(e),
            Ok(h) => if h.packet_specific > 1 {
                Err(CodecError::UnknownPacketType)
            } else if h.packet_specific == 0 {
                if h.packet_len() < EMPTY_RR_SIZE {
                    Err(CodecError::Truncated)
                } else {
                    Ok(
                        (
                            ReceiverReport { ssrc_sender: from_be32(b, 4), report_block: None },
                            h.packet_len() as usize,
                        ),
                    )
                }
            } else if h.packet_len() < RR_SIZE {
                Err(CodecError::Truncated)
            } else {
                Ok(
                    (
                        ReceiverReport {
                            ssrc_sender: from_be32(b, 4),
                            report_block: Some(ReportBlock::parse_at(b, 8)),
                        },
                        h.packet_len() as usize,
                    ),
                )
            },
        }
    }

    /// The header of a report that carries its block.
    pub fn rr_header() -> (h: Header)
        ensures
            h == Header::plain(1, PacketType::ReceiverReport.code_of(), RR_LENGTH),
    {
        Header::new(1, PacketType::ReceiverReport.code(), RR_LENGTH)
    }

    /// The header of a report without a block.
    pub fn empty_rr_header() -> (h: Header)
        ensures
            h == Header::plain(0, PacketType::ReceiverReport.code_of(), EMPTY_RR_LENGTH),
    {
        Header::new(0, PacketType::ReceiverReport.code(), EMPTY_RR_LENGTH)
    }

    /// The common header that is written before this report.
    pub fn header(&self) -> (h: Header)
        ensures
            h == self.spec_header(),
    {
        match self.report_block {
            Some(_) => ReceiverReport::rr_header(),
            None => ReceiverReport::empty_rr_header(),
        }
    }

    /// A report with a block in which every number is zero.
    pub fn new(ssrc_sender: u32) -> (rr: ReceiverReport)
        ensures
            rr == (ReceiverReport {
                ssrc_sender,
                report_block: Some(
                    ReportBlock {
                        ssrc: 0,
                        fraction_lost: 0,
                        cumm_packets_lost: 0,
                        highest_extended_seq_num_received: 0,
                        interarrival_jitter: 0,
                        last_sr_timestamp: 0,
                        delay_since_last_sr: 0,
                    },
                ),
            }),
    {
        ReceiverReport {
            ssrc_sender,
            report_block: Some(
                ReportBlock {
                    ssrc: 0,
                    fraction_lost: 0,
                    cumm_packets_lost: 0,
                    highest_extended_seq_num_received: 0,
                    interarrival_jitter: 0,
                    last_sr_timestamp: 0,
                    delay_since_last_sr: 0,
                },
            ),
        }
    }

    /// A report with the given block.
    pub fn new_with_report_block(ssrc_sender: u32, report_block: ReportBlock) -> (rr:
        ReceiverReport)
        ensures
            rr == (ReceiverReport { ssrc_sender, report_block: Some(report_block) }),
    {
        ReceiverReport { ssrc_sender, report_block: Some(report_block) }
    }

    /// A report without a block.
    pub fn new_empty(ssrc_sender: u32) -> (rr: ReceiverReport)
        ensures
            rr == (ReceiverReport { ssrc_sender, report_block: None }),
    {
        ReceiverReport { ssrc_sender, report_block: None }
    }

    /// Reads a receiver report from the start of `buf`.
    pub fn unmarshal(buf: &[u8]) -> (r: Result<(ReceiverReport, usize), CodecError>)
        ensures
            r == ReceiverReport::parse(buf@),
    {
        match Header::read_frame(buf, PacketType::ReceiverReport.code()) {
            Err(e) => Err(e),
            Ok(h) => {
                let size: usize = h.packet_size();
                if h.packet_specific > 1 {
                    Err(CodecError::UnknownPacketType)
                } else if h.packet_specific == 0 {
                    if size < EMPTY_RR_SIZE {
                        Err(CodecError::Truncated)
                    } else {
                        Ok(
                            (
                                ReceiverReport { ssrc_sender: get_u32(buf, 4), report_block: None },
                                size,
                            ),
                        )
                    }
                } else if size < RR_SIZE {
                    Err(CodecError::Truncated)
                } else {
                    let block = ReportBlock::read_at(buf, 8);
                    Ok(
                        (
                            ReceiverReport { ssrc_sender: get_u32(buf, 4), report_block: Some(block) },
                            size,
                        ),
                    )
                }
            },
        }
    }
}

impl Marshal for ReceiverReport {
    open spec fn wire(&self) -> Seq<u8> {
        match self.report_block {
            Some(block) => self.spec_header().wire() + be32(self.ssrc_sender) + block.wire(),
            None => self.spec_header().wire() + be32(self.ssrc_sender),
        }
    }

    open spec fn encodable(&self) -> bool {
        match self.report_block {
            Some(block) => block.encodable(),
            None => true,
        }
    }

    fn marshal_size(&self) -> (n: usize) {
        match self.report_block {
            Some(_) => RR_SIZE,
            None => EMPTY_RR_SIZE,
        }
    }

    fn marshal(&self, buf: &mut [u8]) -> (r: Result<usize, CodecError>) {
        match self.report_block {
            None => {
                if buf.len() < EMPTY_RR_SIZE {
                    return Err(CodecError::BufferTooSmall);
                }
                let written = ReceiverReport::empty_rr_header().marshal(buf);
                assert(written is Ok);
                put_u32(buf, 4, self.ssrc_sender);
                assert(buf@ =~= overwrite(old(buf)@, 0, self.wire()));
                Ok(EMPTY_RR_SIZE)
            },
            Some(block) => {
                if buf.len() < RR_SIZE {
                    return Err(CodecError::BufferTooSmall);
                }
                if block.cumm_packets_lost > MAX_PACKETS_LOST {
                    return Err(CodecError::FieldOutOfRange);
                }
                let written = ReceiverReport::rr_header().marshal(buf);
                assert(written is Ok);
                put_u32(buf, 4, self.ssrc_sender);
                block.write_at(buf, 8);
                assert(buf@ =~= overwrite(old(buf)@, 0, self.wire()));
                Ok(RR_SIZE)
            },
        }
    }
}

/// Decoding the encoding of an encodable receiver report gives the report
/// back, whatever follows it in the buffer.
pub proof fn lemma_receiver_report_roundtrip(rr: ReceiverReport, rest: Seq<u8>)
    requires
        rr.encodable(),
    ensures
        ReceiverReport::parse(rr.wire() + rest) == Ok::<(ReceiverReport, usize), CodecError>(
            (rr, rr.wire().len() as usize),
        ),
{
    let b = rr.wire() + rest;
    assert(b.subrange(0, 4) =~= rr.spec_header().wire());
    assert(b.subrange(4, 8) =~= be32(rr.ssrc_sender));
    lemma_field32(b, 4, rr.ssrc_sender);
    match rr.report_block {
        None => {
            lemma_frame_plain(b, 0, PacketType::ReceiverReport.code_of(), EMPTY_RR_LENGTH);
        },
        Some(block) => {
            lemma_frame_plain(b, 1, PacketType::ReceiverReport.code_of(), RR_LENGTH);
            assert(b.subrange(8, 32) =~= block.wire());
            lemma_report_block_at(b, 8, block);
        },
    }
}

} // verus!
