//! The generic NACK: retransmission requests by bitmask.
use vstd::prelude::*;
use vstd::slice::slice_to_vec;
use crate::error::CodecError;
use crate::marshal::Marshal;
use crate::rtcp::header::{lemma_frame_plain, Header, PacketType};
use crate::wire::{
    be32, from_be32, get_pairs, get_u32, lemma_field32, lemma_pairs_at, overwrite, pairs_of,
    pairs_wire, parse_pairs, put_pairs, put_u32, WirePair,
};

verus! {

/// Feedback message type of the generic NACK.
pub const GENERIC_NACK_CODE: u8 = 1;

/// Bytes of a generic NACK before its first entry.
pub const NACK_FIXED_SIZE: usize = 12;

/// The most entries that the length field leaves room for.
pub const MAX_ENTRIES: usize = 65533;

/// One entry of a generic NACK. It names up to 17 lost packets: `pid`, and
/// each of the 16 that follow it whose bit is set in `blp`.
#[derive(Clone, Copy, Debug, PartialEq, Eq, Structural)]
pub struct Fci {
    /// Sequence number of a lost packet.
    pub pid: u16,
    /// Bitmask of following lost packets: the bit of weight `2^(i-1)` is set
    /// where packet `pid + i`, modulo 2^16, is lost.
    pub blp: u16,
}

/// Whether bit `i` of `blp`, counted from the least significant, is set.
pub open spec fn bit_set(blp: u16, i: u16) -> bool {
    (blp >> i) & 1 == 1
}

/// The sequence number `step` after `pid`, modulo 2^16.
pub open spec fn seq_after(pid: u16, step: int) -> u16 {
    ((pid + step) % 0x1_0000) as u16
}

/// The lost packets that the lowest `k` bits of `blp` name, in rising order
/// of distance from `pid`.
pub open spec fn lost_in_mask(pid: u16, blp: u16, k: nat) -> Seq<u16>
    decreases k,
{
    if k == 0 {
        Seq::empty()
    } else if bit_set(blp, (k - 1) as u16) {
        lost_in_mask(pid, blp, (k - 1) as nat).push(seq_after(pid, k as int))
    } else {
        lost_in_mask(pid, blp, (k - 1) as nat)
    }
}

impl Fci {
    /// The lost packets that this entry names: `pid` first, then those of the
    /// bitmask.
    pub open spec fn lost(&self) -> Seq<u16> {
        seq![self.pid] + lost_in_mask(self.pid, self.blp, 16)
    }

    /// The sequence numbers of the lost packets, `pid` first and the others
    /// in rising order of distance from it.
    pub fn lost_sequence_numbers(&self) -> (lost: Vec<u16>)
        ensures
            lost@ == self.lost(),
    {
        let mut lost: Vec<u16> = Vec::new();
        lost.push(self.pid);
        let mut k: u16 = 0;
        while k < 16
            invariant
                k <= 16,
                lost@ == seq![self.pid] + lost_in_mask(self.pid, self.blp, k as nat),
            decreases 16 - k,
        {
            if (self.blp >> k) & 1 == 1 {
                let step: u32 = self.pid as u32 + k as u32 + 1;
                lost.push((step % 0x1_0000) as u16);
            }
            k = k + 1;
            assert(lost@ =~= seq![self.pid] + lost_in_mask(self.pid, self.blp, k as nat));
        }
        lost
    }
}

/// What the expansion of an entry holds: always `pid`, at most 17 numbers, and
/// besides `pid` exactly the numbers `pid + i` whose bit is set.
pub proof fn lemma_lost_in_mask(pid: u16, blp: u16, k: nat)
    requires
        k <= 16,
    ensures
        lost_in_mask(pid, blp, k).len() <= k,
        forall|s: u16|
            lost_in_mask(pid, blp, k).contains(s) <==> exists|i: int|
                1 <= i <= k && #[trigger] bit_set(blp, (i - 1) as u16) && s == seq_after(pid, i),
    decreases k,
{
    if k > 0 {
        let shorter = lost_in_mask(pid, blp, (k - 1) as nat);
        lemma_lost_in_mask(pid, blp, (k - 1) as nat);
        let longer = lost_in_mask(pid, blp, k);
        assert forall|s: u16| longer.contains(s) <==> exists|i: int|
            1 <= i <= k && #[trigger] bit_set(blp, (i - 1) as u16) && s == seq_after(
                pid,
                i,
            ) by {
            if bit_set(blp, (k - 1) as u16) {
                assert(longer == shorter.push(seq_after(pid, k as int)));
                if longer.contains(s) {
                    let j = choose|j: int| 0 <= j < longer.len() && longer[j] == s;
                    if j < shorter.len() {
                        assert(shorter[j] == s);
                        assert(shorter.contains(s));
                    } else {
                        assert(bit_set(blp, (k as int - 1) as u16) && s == seq_after(pid, k as int));
                    }
                }
                if exists|i: int|
                    1 <= i <= k && #[trigger] bit_set(blp, (i - 1) as u16) && s == seq_after(
                        pid,
                        i,
                    ) {
                    let i = choose|i: int|
                        1 <= i <= k && #[trigger] bit_set(blp, (i - 1) as u16) && s == seq_after(
                            pid,
                            i,
                        );
                    if i == k {
                        assert(longer[longer.len() - 1] == s);
                    } else {
                        assert(shorter.contains(s));
                        let j = choose|j: int| 0 <= j < shorter.len() && shorter[j] == s;
                        assert(longer[j] == s);
                    }
                }
            } else {
                assert(longer == shorter);
                if exists|i: int|
                    1 <= i <= k && #[trigger] bit_set(blp, (i - 1) as u16) && s == seq_after(
                        pid,
                        i,
                    ) {
                    let i = choose|i: int|
                        1 <= i <= k && #[trigger] bit_set(blp, (i - 1) as u16) && s == seq_after(
                            pid,
                            i,
                        );
                    assert(i != k);
                }
            }
        }
    }
}

impl WirePair for Fci {
    open spec fn pair(&self) -> (u16, u16) {
        (self.pid, self.blp)
    }

    fn halves(&self) -> (p: (u16, u16)) {
        (self.pid, self.blp)
    }

    fn from_halves(first: u16, second: u16) -> (x: Fci) {
        Fci { pid: first, blp: second }
    }
}

/// A generic NACK message: any number of entries for one media source.
#[derive(Clone, Debug, PartialEq, Eq)]
pub struct GenericNack {
    /// The source that sends this request. A RIST sender ignores it.
    pub ssrc_packet_sender: u32,
    /// The media source that the request is about.
    pub ssrc_media_src: u32,
    /// The entries.
    pub fcis: Vec<Fci>,
}

/// What a generic NACK is, apart from how its entries are stored.
pub struct GenericNackView {
    pub ssrc_packet_sender: u32,
    pub ssrc_media_src: u32,
    pub fcis: Seq<Fci>,
}

impl View for GenericNack {
    type V = GenericNackView;

    open spec fn view(&self) -> GenericNackView {
        GenericNackView {
            ssrc_packet_sender: self.ssrc_packet_sender,
            ssrc_media_src: self.ssrc_media_src,
            fcis: self.fcis@,
        }
    }
}

/// The entries that a list of pairs stands for.
pub open spec fn fcis_of(pairs: Seq<(u16, u16)>) -> Seq<Fci> {
    Seq::new(pairs.len(), |i: int| Fci { pid: pairs[i].0, blp: pairs[i].1 })
}

impl GenericNackView {
    /// The common header: feedback, of the generic NACK kind, with a length
    /// of three words and one more for each entry, minus one.
    pub open spec fn header(self) -> Header {
        Header::plain(
            GENERIC_NACK_CODE,
            PacketType::Feedback.code_of(),
            (self.fcis.len() + 2) as u16,
        )
    }

    /// Header, the two sources, and four bytes for each entry.
    pub open spec fn wire(self) -> Seq<u8> {
        self.header().wire() + be32(self.ssrc_packet_sender) + be32(self.ssrc_media_src)
            + pairs_wire(pairs_of(self.fcis))
    }

    /// The number of entries fits the length field.
    pub open spec fn encodable(self) -> bool {
        self.fcis.len() <= MAX_ENTRIES
    }

    /// What a buffer that starts with a generic NACK decodes to.
    ///
    /// After the frame checks, another feedback kind is refused as unknown and
    /// a declared length under 12 bytes as truncated. Every word after the
    /// third is an entry.
    pub open spec fn parse(b: Seq<u8>) -> Result<(GenericNackView, usize), CodecError> {
        match Header::frame(b, PacketType::Feedback.code_of()) {
            Err(e) => Err(e),
            Ok(h) => if h.packet_specific != GENERIC_NACK_CODE {
                Err(CodecError::UnknownPacketType)
            } else if h.packet_len() < NACK_FIXED_SIZE {
                Err(CodecError::Truncated)
            } else {
                Ok(
                    (
                        GenericNackView {
                            ssrc_packet_sender: from_be32(b, 4),
                            ssrc_media_src: from_be32(b, 8),
                            fcis: fcis_of(parse_pairs(b, 12, (h.length - 2) as nat)),
                        },
                        h.packet_len() as usize,
                    ),
                )
            },
        }
    }
}

/// The lost packets that a list of entries names, entry after entry.
pub open spec fn lost_of(fcis: Seq<Fci>) -> Seq<u16>
    decreases fcis.len(),
{
    if fcis.len() == 0 {
        Seq::empty()
    } else {
        lost_of(fcis.drop_last()) + fcis.last().lost()
    }
}

impl GenericNack {
    /// The sequence numbers of all packets that the message reports lost,
    /// entry after entry, in the order in which each entry names them.
    pub fn lost_sequence_numbers(&self) -> (lost: Vec<u16>)
        ensures
            lost@ == lost_of(self@.fcis),
    {
        let mut lost: Vec<u16> = Vec::new();
        let n: usize = self.fcis.len();
        let mut k: usize = 0;
        assert(self.fcis@.take(0) =~= Seq::<Fci>::empty());
        while k < n
            invariant
                k <= n,
                n == self.fcis@.len(),
                lost@ == lost_of(self.fcis@.take(k as int)),
            decreases n - k,
        {
            let mut more: Vec<u16> = self.fcis[k].lost_sequence_numbers();
            lost.append(&mut more);
            k = k + 1;
            assert(self.fcis@.take(k as int).drop_last() =~= self.fcis@.take(k - 1));
        }
        assert(self.fcis@.take(n as int) =~= self.fcis@);
        lost
    }

    /// The common header that is written before this message, where its
    /// length field can hold the number of entries.
    pub fn header(&self) -> (h: Option<Header>)
        ensures
            self@.encodable() ==> h == Some(self@.header()),
            !self@.encodable() ==> h.is_none(),
    {
        let count: usize = self.fcis.len();
        if count > MAX_ENTRIES {
            None
        } else {
            Some(Header::new(GENERIC_NACK_CODE, PacketType::Feedback.code(), (count + 2) as u16))
        }
    }

    /// A request about `ssrc_media_src` with the given entries. The sender's
    /// own source is left at zero.
    pub fn new(ssrc_media_src: u32, fcis: &[Fci]) -> (nack: GenericNack)
        ensures
            nack@ == (GenericNackView { ssrc_packet_sender: 0, ssrc_media_src, fcis: fcis@ }),
    {
        GenericNack { ssrc_packet_sender: 0, ssrc_media_src, fcis: slice_to_vec(fcis) }
    }

    /// Reads a generic NACK from the start of `buf`.
    pub fn unmarshal(buf: &[u8]) -> (r: Result<(GenericNack, usize), CodecError>)
        ensures
            match (r, GenericNackView::parse(buf@)) {
                (Ok((p, n)), Ok((v, m))) => p@ == v && n == m,
                (Err(e), Err(f)) => e == f,
                _ => false,
            },
    {
        match Header::read_frame(buf, PacketType::Feedback.code()) {
            Err(e) => Err(e),
            Ok(h) => {
                if h.packet_specific != GENERIC_NACK_CODE {
                    return Err(CodecError::UnknownPacketType);
                }
                let size: usize = h.packet_size();
                if size < NACK_FIXED_SIZE {
                    return Err(CodecError::Truncated);
                }
                let count: usize = (h.length - 2) as usize;
                let fcis: Vec<Fci> = get_pairs(buf, 12, count);
                let nack = GenericNack {
                    ssrc_packet_sender: get_u32(buf, 4),
                    ssrc_media_src: get_u32(buf, 8),
                    fcis,
                };
                proof {
                    let pairs = parse_pairs(buf@, 12, count as nat);
                    assert forall|i: int| 0 <= i < count implies nack.fcis@[i] == fcis_of(
                        pairs,
                    )[i] by {
                        assert(pairs_of(nack.fcis@)[i] == pairs[i]);
                    }
                    assert(pairs_of(nack.fcis@).len() == count);
                    assert(nack.fcis@ =~= fcis_of(pairs));
                }
                Ok((nack, size))
            },
        }
    }
}

impl Marshal for GenericNack {
    open spec fn wire(&self) -> Seq<u8> {
        self@.wire()
    }

    open spec fn encodable(&self) -> bool {
        self@.encodable()
    }

    fn marshal_size(&self) -> (n: usize) {
        NACK_FIXED_SIZE + 4 * self.fcis.len()
    }

    fn marshal(&self, buf: &mut [u8]) -> (r: Result<usize, CodecError>) {
        let count: usize = self.fcis.len();
        if buf.len() < NACK_FIXED_SIZE || (buf.len() - NACK_FIXED_SIZE) / 4 < count {
            return Err(CodecError::BufferTooSmall);
        }
        if count > MAX_ENTRIES {
            return Err(CodecError::FieldOutOfRange);
        }
        let header = Header::new(GENERIC_NACK_CODE, PacketType::Feedback.code(), (count + 2) as u16);
        let written = header.marshal(buf);
        assert(written is Ok);
        put_u32(buf, 4, self.ssrc_packet_sender);
        put_u32(buf, 8, self.ssrc_media_src);
        put_pairs(buf, 12, &self.fcis);
        assert(buf@ =~= overwrite(old(buf)@, 0, self.wire()));
        Ok(NACK_FIXED_SIZE + 4 * count)
    }
}

/// A generic NACK takes twelve bytes and four more for each entry, so one
/// entry more makes it four bytes longer.
pub proof fn lemma_generic_nack_size(nack: GenericNackView, entry: Fci)
    ensures
        nack.wire().len() == NACK_FIXED_SIZE + 4 * nack.fcis.len(),
        (GenericNackView { fcis: nack.fcis.push(entry), ..nack }).wire().len() == nack.wire().len()
            + 4,
{
}

/// Decoding the encoding of an encodable generic NACK gives the message back,
/// whatever follows it in the buffer.
pub proof fn lemma_generic_nack_roundtrip(nack: GenericNackView, rest: Seq<u8>)
    requires
        nack.encodable(),
    ensures
        nack.wire().len() == NACK_FIXED_SIZE + 4 * nack.fcis.len(),
        GenericNackView::parse(nack.wire() + rest) == Ok::<(GenericNackView, usize), CodecError>(
            (nack, nack.wire().len() as usize),
        ),
{
    let b = nack.wire() + rest;
    let n = nack.fcis.len() as int;
    let pairs = pairs_of(nack.fcis);
    assert(b.subrange(0, 4) =~= nack.header().wire());
    lemma_frame_plain(b, GENERIC_NACK_CODE, PacketType::Feedback.code_of(), (n + 2) as u16);
    assert(b.subrange(4, 8) =~= be32(nack.ssrc_packet_sender));
    lemma_field32(b, 4, nack.ssrc_packet_sender);
    assert(b.subrange(8, 12) =~= be32(nack.ssrc_media_src));
    lemma_field32(b, 8, nack.ssrc_media_src);
    assert(b.subrange(12, 12 + 4 * n) =~= pairs_wire(pairs));
    lemma_pairs_at(b, 12, pairs);
    assert(fcis_of(pairs) =~= nack.fcis);
}

} // verus!
