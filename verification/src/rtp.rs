//! RTP media packets: the fixed header and the packet built on it.
pub mod header;
pub mod packet;

pub use header::Header;
pub use packet::Packet;
