//! RTCP control packets: the common header and the packet types of RIST.
pub mod compound;
pub mod feedback;
pub mod header;
pub mod receiver_report;
pub mod report_block;
pub mod sdes;
pub mod sender_report;

pub use compound::{decode_compound, decode_one, Decoded, RtcpPacket};
pub use feedback::{Fci, GenericNack, PacketRangeRequest, RangeBasedNACK, RttEcho, Subtype};
pub use header::{Header, PacketType};
pub use receiver_report::ReceiverReport;
pub use report_block::ReportBlock;
pub use sdes::{Chunk, Sdes};
pub use sender_report::{SenderInfo, SenderReport};
