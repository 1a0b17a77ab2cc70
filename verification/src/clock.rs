//! Timestamps derived from wall-clock time.
pub mod ntp;
pub mod rtp;
pub mod system;
pub mod wall;

pub use ntp::NtpTimestamp;
pub use rtp::RtpClock;
