//! Reception report blocks: what a receiver has seen of one source.
use vstd::prelude::*;
use crate::wire::{be32, from_be32, get_u32, lemma_field32, overwrite, put_u32, put_u8};

verus! {

/// Bytes that a report block takes.
pub const REPORT_BLOCK_SIZE: usize = 24;

/// The largest count of lost packets that the 24-bit field carries.
pub const MAX_PACKETS_LOST: u32 = 0xff_ffff;

/// Reception statistics for one source.
#[derive(Clone, Copy, Debug, PartialEq, Eq, Structural)]
pub struct ReportBlock {
    /// The source that this block is about.
    pub ssrc: u32,
    /// Share of packets lost since the last report, with the binary point at
    /// the left edge of the octet.
    pub fraction_lost: u8,
    /// Packets lost since reception began. Three bytes on the wire.
    pub cumm_packets_lost: u32,
    /// Highest sequence number received, with the count of sequence number
    /// cycles in the upper 16 bits.
    pub highest_extended_seq_num_received: u32,
    /// Estimate of the variance of the packets' interarrival time.
    pub interarrival_jitter: u32,
    /// Middle 32 bits of the NTP timestamp of the last sender report.
    pub last_sr_timestamp: u32,
    /// Time since that sender report arrived, in units of 1/65536 second.
    pub delay_since_last_sr: u32,
}

impl ReportBlock {
    /// The 24 bytes of the block.
    pub open spec fn wire(&self) -> Seq<u8> {
        be32(self.ssrc) + seq![
            self.fraction_lost,
            (self.cumm_packets_lost / 0x1_0000 % 0x100) as u8,
            (self.cumm_packets_lost / 0x100 % 0x100) as u8,
            (self.cumm_packets_lost % 0x100) as u8,
        ] + be32(self.highest_extended_seq_num_received) + be32(self.interarrival_jitter) + be32(
            self.last_sr_timestamp,
        ) + be32(self.delay_since_last_sr)
    }

    /// The count of lost packets fits its three bytes.
    pub open spec fn encodable(&self) -> bool {
        self.cumm_packets_lost <= MAX_PACKETS_LOST
    }

    /// The block that the 24 bytes from `b[at]` on decode to.
    pub open spec fn parse_at(b: Seq<u8>, at: int) -> ReportBlock {
        ReportBlock {
            ssrc: from_be32(b, at),
            fraction_lost: b[at + 4],
            cumm_packets_lost: (b[at + 5] * 0x1_0000 + b[at + 6] * 0x100 + b[at + 7]) as u32,
            highest_extended_seq_num_received: from_be32(b, at + 8),
            interarrival_jitter: from_be32(b, at + 12),
            last_sr_timestamp: from_be32(b, at + 16),
            delay_since_last_sr: from_be32(b, at + 20),
        }
    }

    /// Writes the block at `buf[at]` and after.
    pub(crate) fn write_at(&self, buf: &mut [u8], at: usize)
        requires
            self.encodable(),
            at + REPORT_BLOCK_SIZE <= old(buf)@.len(),
        ensures
            final(buf)@ == overwrite(old(buf)@, at as int, self.wire()),
    {
        assert(at + REPORT_BLOCK_SIZE <= buf.len());
        put_u32(buf, at, self.ssrc);
        put_u8(buf, at + 4, self.fraction_lost);
        put_u8(buf, at + 5, (self.cumm_packets_lost / 0x1_0000 % 0x100) as u8);
        put_u8(buf, at + 6, (self.cumm_packets_lost / 0x100 % 0x100) as u8);
        put_u8(buf, at + 7, (self.cumm_packets_lost % 0x100) as u8);
        put_u32(buf, at + 8, self.highest_extended_seq_num_received);
        put_u32(buf, at + 12, self.interarrival_jitter);
        put_u32(buf, at + 16, self.last_sr_timestamp);
        put_u32(buf, at + 20, self.delay_since_last_sr);
        assert(buf@ =~= overwrite(old(buf)@, at as int, self.wire()));
    }

    /// Reads the block at `buf[at]` and after.
    pub(crate) fn read_at(buf: &[u8], at: usize) -> (block: ReportBlock)
        requires
            at + REPORT_BLOCK_SIZE <= buf@.len(),
        ensures
            block == ReportBlock::parse_at(buf@, at as int),
    {
        assert(at + REPORT_BLOCK_SIZE <= buf.len());
        let b5: u32 = buf[at + 5] as u32;
        let b6: u32 = buf[at + 6] as u32;
        let b7: u32 = buf[at + 7] as u32;
        ReportBlock {
            ssrc: get_u32(buf, at),
            fraction_lost: buf[at + 4],
            cumm_packets_lost: b5 * 0x1_0000 + b6 * 0x100 + b7,
            highest_extended_seq_num_received: get_u32(buf, at + 8),
            interarrival_jitter: get_u32(buf, at + 12),
            last_sr_timestamp: get_u32(buf, at + 16),
            delay_since_last_sr: get_u32(buf, at + 20),
        }
    }
}

/// The three bytes of a count of lost packets add up to the count.
pub proof fn lemma_packets_lost_roundtrip(count: u32)
    requires
        count <= MAX_PACKETS_LOST,
    ensures
        (count / 0x1_0000 % 0x100) * 0x1_0000 + (count / 0x100 % 0x100) * 0x100 + count % 0x100
            == count,
{
}

/// Where the 24 bytes from `at` on are those of an encodable block, reading
/// there gives the block.
pub proof fn lemma_report_block_at(b: Seq<u8>, at: int, block: ReportBlock)
    requires
        block.encodable(),
        0 <= at,
        at + REPORT_BLOCK_SIZE <= b.len(),
        b.subrange(at, at + 24) == block.wire(),
    ensures
        ReportBlock::parse_at(b, at) == block,
{
    let w = block.wire();
    assert(w.len() == 24);
    assert forall|k: int| 0 <= k < 24 implies b[at + k] == w[k] by {
        assert(b.subrange(at, at + 24)[k] == b[at + k]);
    }
    assert(b.subrange(at, at + 4) =~= w.subrange(0, 4));
    assert(w.subrange(0, 4) =~= be32(block.ssrc));
    lemma_field32(b, at, block.ssrc);
    assert(b[at + 4] == w[4]);
    assert(b[at + 5] == w[5]);
    assert(b[at + 6] == w[6]);
    assert(b[at + 7] == w[7]);
    lemma_packets_lost_roundtrip(block.cumm_packets_lost);
    assert(b.subrange(at + 8, at + 12) =~= w.subrange(8, 12));
    assert(w.subrange(8, 12) =~= be32(block.highest_extended_seq_num_received));
    lemma_field32(b, at + 8, block.highest_extended_seq_num_received);
    assert(b.subrange(at + 12, at + 16) =~= w.subrange(12, 16));
    assert(w.subrange(12, 16) =~= be32(block.interarrival_jitter));
    lemma_field32(b, at + 12, block.interarrival_jitter);
    assert(b.subrange(at + 16, at + 20) =~= w.subrange(16, 20));
    assert(w.subrange(16, 20) =~= be32(block.last_sr_timestamp));
    lemma_field32(b, at + 16, block.last_sr_timestamp);
    assert(b.subrange(at + 20, at + 24) =~= w.subrange(20, 24));
    assert(w.subrange(20, 24) =~= be32(block.delay_since_last_sr));
    lemma_field32(b, at + 20, block.delay_since_last_sr);
}

} // verus!
