//! Wire formats and sender-side reliability for RIST over RTP/RTCP.
//!
//! The crate has three layers. `clock` turns wall-clock durations into NTP and
//! RTP timestamps. `rtp` and `rtcp` hold the packet types with their byte
//! layouts, each encoder and decoder proved against a mathematical description
//! of the format; `wire` and `marshal` hold what they share. `runtime` builds
//! the retransmission cache, the round-trip estimator and the sender on top of
//! them.
//!
//! Four small modules are the boundary to code that is not verified here:
//! `entropy` (random identifiers), `clock::system` (durations and the system
//! clock), `text` (strings from bytes) and `runtime::ring` (the ring buffer
//! under the cache). What they state is believed, not proved.
pub mod clock;
pub mod entropy;
pub mod error;
pub mod marshal;
pub mod rtcp;
pub mod rtp;
pub mod runtime;
pub mod text;
pub mod wire;
