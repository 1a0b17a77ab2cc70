//! Sender reports: what an active sender has transmitted so far.
use vstd::prelude::*;
use crate::error::CodecError;
use crate::marshal::Marshal;
use crate::rtcp::header::{lemma_frame_plain, Header, PacketType};
use crate::wire::{
    be32, be64, from_be32, from_be64, get_u32, get_u64, lemma_field32, lemma_field64, overwrite,
    put_u32, put_u64,
};

verus! {

/// Value of the length field of a sender report: seven words, minus one.
pub const SR_LENGTH: u16 = 6;

/// Bytes that a sender report takes.
pub const SR_SIZE: usize = 28;

/// A summary of the data that the sender has transmitted.
#[derive(Clone, Copy, Debug, PartialEq, Eq, Structural)]
pub struct SenderInfo {
    /// Wall-clock time of the report: NTP seconds in the upper 32 bits, the
    /// fraction in the lower 32.
    pub ntp_ts: u64,
    /// The same instant in the units of the RTP timestamps.
    pub rtp_ts: u32,
    /// RTP packets sent since the start of transmission.
    pub sender_packet_count: u32,
    /// Payload octets sent since the start of transmission.
    pub sender_octet_count: u32,
}

/// A sender report. RIST sends it without report blocks.
#[derive(Clone, Copy, Debug, PartialEq, Eq, Structural)]
pub struct SenderReport {
    /// The source that sends this report.
    pub ssrc_sender: u32,
    /// What it has sent.
    pub sender_info: SenderInfo,
}

impl SenderReport {
    /// The common header of every sender report.
    pub open spec fn spec_header() -> Header {
        Header::plain(0, PacketType::SenderReport.code_of(), SR_LENGTH)
    }

    /// What a buffer that starts with a sender report decodes to.
    ///
    /// After the frame checks, a report that announces report blocks is
    /// refused as unknown, and one whose declared length is under 28 bytes as
    /// truncated. The whole declared length counts as read.
    pub open spec fn parse(b: Seq<u8>) -> Result<(SenderReport, usize), CodecError> {
        match Header::frame(b, PacketType::SenderReport.code_of()) {
            Err(e) => Err(e),
            Ok(h) => if h.packet_specific != 0 {
                Err(CodecError::UnknownPacketType)
            } else if h.packet_len() < SR_SIZE {
                Err(CodecError::Truncated)
            } else {
                Ok(
                    (
                        SenderReport {
                            ssrc_sender: from_be32(b, 4),
                            sender_info: SenderInfo {
                                ntp_ts: from_be64(b, 8),
                                rtp_ts: from_be32(b, 16),
                                sender_packet_count: from_be32(b, 20),
                                sender_octet_count: from_be32(b, 24),
                            },
                        },
                        h.packet_len() as usize,
                    ),
                )
            },
        }
    }

    /// The common header that is written before this report.
    pub fn header(&self) -> (h: Header)
        ensures
            h == SenderReport::spec_header(),
    {
        Header::new(0, PacketType::SenderReport.code(), SR_LENGTH)
    }

    /// A report of a sender that has sent nothing yet.
    pub fn new(sender_ssrc: u32) -> (sr: SenderReport)
        ensures
            sr == (SenderReport {
                ssrc_sender: sender_ssrc,
                sender_info: SenderInfo {
                    ntp_ts: 0,
                    rtp_ts: 0,
                    sender_packet_count: 0,
                    sender_octet_count: 0,
                },
            }),
    {
        SenderReport {
            ssrc_sender: sender_ssrc,
            sender_info: SenderInfo {
                ntp_ts: 0,
                rtp_ts: 0,
                sender_packet_count: 0,
                sender_octet_count: 0,
            },
        }
    }

    /// Reads a sender report from the start of `buf`.
    pub fn unmarshal(buf: &[u8]) -> (r: Result<(SenderReport, usize), CodecError>)
        ensures
            r == SenderReport::parse(buf@),
    {
        match Header::read_frame(buf, PacketType::SenderReport.code()) {
            Err(e) => Err(e),
            Ok(h) => {
                if h.packet_specific != 0 {
                    return Err(CodecError::UnknownPacketType);
                }
                let size: usize = h.packet_size();
                if size < SR_SIZE {
                    return Err(CodecError::Truncated);
                }
                let report = SenderReport {
                    ssrc_sender: get_u32(buf, 4),
                    sender_info: SenderInfo {
                        ntp_ts: get_u64(buf, 8),
                        rtp_ts: get_u32(buf, 16),
                        sender_packet_count: get_u32(buf, 20),
                        sender_octet_count: get_u32(buf, 24),
                    },
                };
                Ok((report, size))
            },
        }
    }
}

impl Marshal for SenderReport {
    open spec fn wire(&self) -> Seq<u8> {
        SenderReport::spec_header().wire() + be32(self.ssrc_sender) + be64(self.sender_info.ntp_ts)
            + be32(self.sender_info.rtp_ts) + be32(self.sender_info.sender_packet_count) + be32(
            self.sender_info.sender_octet_count,
        )
    }

    open spec fn encodable(&self) -> bool {
        true
    }

    fn marshal_size(&self) -> (n: usize)
        ensures
            n == SR_SIZE,
    {
        SR_SIZE
    }

    fn marshal(&self, buf: &mut [u8]) -> (r: Result<usize, CodecError>) {
        if buf.len() < SR_SIZE {
            return Err(CodecError::BufferTooSmall);
        }
        let header = Header::new(0, PacketType::SenderReport.code(), SR_LENGTH);
        let written = header.marshal(buf);
        assert(written is Ok);
        put_u32(buf, 4, self.ssrc_sender);
        put_u64(buf, 8, self.sender_info.ntp_ts);
        put_u32(buf, 16, self.sender_info.rtp_ts);
        put_u32(buf, 20, self.sender_info.sender_packet_count);
        put_u32(buf, 24, self.sender_info.sender_octet_count);
        assert(buf@ =~= overwrite(old(buf)@, 0, self.wire()));
        Ok(SR_SIZE)
    }
}

/// Decoding the encoding of a sender report gives the report back, whatever
/// follows it in the buffer.
pub proof fn lemma_sender_report_roundtrip(sr: SenderReport, rest: Seq<u8>)
    ensures
        sr.wire().len() == SR_SIZE,
        SenderReport::parse(sr.wire() + rest) == Ok::<(SenderReport, usize), CodecError>(
            (sr, SR_SIZE),
        ),
{
    let b = sr.wire() + rest;
    let info = sr.sender_info;
    assert(b.subrange(0, 4) =~= SenderReport::spec_header().wire());
    lemma_frame_plain(b, 0, PacketType::SenderReport.code_of(), SR_LENGTH);
    assert(b.subrange(4, 8) =~= be32(sr.ssrc_sender));
    lemma_field32(b, 4, sr.ssrc_sender);
    assert(b.subrange(8, 16) =~= be64(info.ntp_ts));
    lemma_field64(b, 8, info.ntp_ts);
    assert(b.subrange(16, 20) =~= be32(info.rtp_ts));
    lemma_field32(b, 16, info.rtp_ts);
    assert(b.subrange(20, 24) =~= be32(info.sender_packet_count));
    lemma_field32(b, 20, info.sender_packet_count);
    assert(b.subrange(24, 28) =~= be32(info.sender_octet_count));
    lemma_field32(b, 24, info.sender_octet_count);
}

} // verus!
