//! An RTP packet: the fixed header and the payload behind it.
use vstd::prelude::*;
use vstd::slice::{slice_subrange, slice_to_vec};
use crate::error::CodecError;
use crate::marshal::Marshal;
use crate::rtp::header::{Header, HEADER_SIZE};
use crate::wire::{overwrite, put_bytes};

verus! {

/// A header with the media payload that it announces.
#[derive(Clone, Debug, PartialEq, Eq)]
pub struct Packet {
    header: Header,
    payload: Vec<u8>,
}

/// What a packet is, apart from how its payload is stored.
pub struct PacketView {
    pub header: Header,
    pub payload: Seq<u8>,
}

impl View for Packet {
    type V = PacketView;

    closed spec fn view(&self) -> PacketView {
        PacketView { header: self.header, payload: self.payload@ }
    }
}

impl PacketView {
    /// The header's twelve bytes and the payload behind them.
    pub open spec fn wire(self) -> Seq<u8> {
        self.header.wire() + self.payload
    }

    /// What a buffer decodes to: its first twelve bytes as the header and all
    /// that follows as the payload.
    pub open spec fn parse(b: Seq<u8>) -> Result<(PacketView, usize), CodecError> {
        match Header::parse(b) {
            Err(e) => Err(e),
            Ok((header, _)) => Ok(
                (
                    PacketView { header, payload: b.subrange(HEADER_SIZE as int, b.len() as int) },
                    b.len() as usize,
                ),
            ),
        }
    }
}

impl Packet {
    /// Puts a header and a payload together.
    pub fn new(header: Header, payload: Vec<u8>) -> (p: Packet)
        ensures
            p@ == (PacketView { header, payload: payload@ }),
    {
        Packet { header, payload }
    }

    /// The packet's header.
    pub fn header(&self) -> (h: &Header)
        ensures
            *h == self@.header,
    {
        &self.header
    }

    /// The packet's payload.
    pub fn payload(&self) -> (p: &Vec<u8>)
        ensures
            p@ == self@.payload,
    {
        &self.payload
    }

    /// Reads a packet that fills all of `buf`.
    pub fn unmarshal(buf: &[u8]) -> (r: Result<(Packet, usize), CodecError>)
        ensures
            match (r, PacketView::parse(buf@)) {
                (Ok((p, n)), Ok((v, m))) => p@ == v && n == m,
                (Err(e), Err(f)) => e == f,
                _ => false,
            },
    {
        match Header::unmarshal(buf) {
            Err(e) => Err(e),
            Ok((header, _)) => {
                let payload = slice_to_vec(slice_subrange(buf, HEADER_SIZE, buf.len()));
                Ok((Packet { header, payload }, buf.len()))
            },
        }
    }
}

impl Marshal for Packet {
    open spec fn wire(&self) -> Seq<u8> {
        self@.wire()
    }

    open spec fn encodable(&self) -> bool {
        self@.header.encodable()
    }

    fn marshal_size(&self) -> (n: usize) {
        HEADER_SIZE + self.payload.len()
    }

    fn marshal(&self, buf: &mut [u8]) -> (r: Result<usize, CodecError>) {
        let payload_size: usize = self.payload.len();
        if buf.len() < HEADER_SIZE || buf.len() - HEADER_SIZE < payload_size {
            return Err(CodecError::BufferTooSmall);
        }
        match self.header.marshal(buf) {
            Err(e) => Err(e),
            Ok(_) => {
                put_bytes(buf, HEADER_SIZE, self.payload.as_slice());
                assert(buf@ =~= overwrite(old(buf)@, 0, self.wire()));
                Ok(HEADER_SIZE + payload_size)
            },
        }
    }
}

/// Decoding the encoding of a packet with a well-formed header gives the
/// packet back.
pub proof fn lemma_packet_roundtrip(p: PacketView)
    requires
        p.header.well_formed(),
        p.wire().len() <= usize::MAX,
    ensures
        PacketView::parse(p.wire()) == Ok::<(PacketView, usize), CodecError>(
            (p, p.wire().len() as usize),
        ),
{
    crate::rtp::header::lemma_header_roundtrip(p.header, p.payload);
    assert(p.wire().subrange(HEADER_SIZE as int, p.wire().len() as int) =~= p.payload);
}

} // verus!
