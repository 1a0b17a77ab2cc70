//! The sender's reliability engine: the retransmission cache, the round-trip
//! estimator, the dispatch of feedback, and the sender that ties them.
pub mod cache;
pub mod common;
pub mod dispatcher;
pub mod queue;
pub mod ring;
pub mod rtp_sender;
pub mod rtt;
pub mod sender;

pub use cache::{CacheEntry, RetransmissionCache, RetransmitAction};
pub use common::RistListenerPort;
pub use dispatcher::{dispatch, Routing};
pub use queue::PacketRing;
pub use rtp_sender::{Builder, RtpSender, RtpTransmit};
pub use rtt::{PendingRequest, RttEstimator};
pub use sender::{FeedbackEvent, Sender, SenderConfig};
