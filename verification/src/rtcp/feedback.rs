//! Feedback from the receiver: retransmission requests and round-trip
//! probes.
use vstd::prelude::*;

pub mod nack;
pub mod rist;

pub use nack::{Fci, GenericNack};
pub use rist::{PacketRangeRequest, RangeBasedNACK, RttEcho};

verus! {

/// The application name of RIST, the letters "RIST".
pub const RIST_NAME: u32 = 0x52495354;

/// What the five specific bits of the header say in a feedback or
/// application packet.
#[derive(Clone, Copy, Debug, PartialEq, Eq, Structural)]
pub enum Subtype {
    RangeBasedNACK,
    GenericNack,
    EchoRequest,
    EchoResponse,
}

impl Subtype {
    /// The number that stands for this subtype in the header.
    pub open spec fn code_of(self) -> u8 {
        match self {
            Subtype::RangeBasedNACK => 0,
            Subtype::GenericNack => 1,
            Subtype::EchoRequest => 2,
            Subtype::EchoResponse => 3,
        }
    }

    /// The number that stands for this subtype in the header.
    pub fn code(&self) -> (code: u8)
        ensures
            code == self.code_of(),
    {
        match self {
            Subtype::RangeBasedNACK => 0,
            Subtype::GenericNack => 1,
            Subtype::EchoRequest => 2,
            Subtype::EchoResponse => 3,
        }
    }
}

} // verus!
