//! Error types shared by the codec, the clock and the configuration surface.
use vstd::prelude::*;

verus! {

/// Why a packet could not be written to, or read from, a byte buffer.
#[derive(Clone, Copy, Debug, PartialEq, Eq, Structural)]
pub enum CodecError {
    /// The output buffer is shorter than the encoding.
    BufferTooSmall,
    /// The input ends before the packet does.
    Truncated,
    /// A field holds a value that its place in the format cannot carry.
    FieldOutOfRange,
    /// The version bits are not 2.
    UnsupportedVersion,
    /// The packet type, or its subtype, is none that this crate knows.
    UnknownPacketType,
}

/// Why no timestamp could be produced.
#[derive(Clone, Copy, Debug, PartialEq, Eq, Structural)]
pub enum ClockError {
    /// The system clock reads a time before the Unix epoch.
    SystemClockBeforeEpoch,
}

/// Why a configuration value was refused.
#[derive(Clone, Copy, Debug, PartialEq, Eq, Structural)]
pub enum ConfigError {
    /// A listener port must be even and lie between 2 and 65534.
    InvalidListenerPort,
    /// An RTP payload type must fit seven bits.
    InvalidPayloadType,
    /// The retransmission buffer must hold at least one packet and no more
    /// than the machine can hold.
    InvalidBufferSize,
    /// The table of echo requests must have room for at least one.
    InvalidPendingLimit,
}

/// Why no random identifiers could be drawn.
#[derive(Clone, Copy, Debug, PartialEq, Eq, Structural)]
pub enum EntropyError {
    /// The operating system had no randomness to give.
    Unavailable,
}

/// Why a sender could not be built.
#[derive(Clone, Copy, Debug, PartialEq, Eq, Structural)]
pub enum BuildError {
    /// The clock could not be read.
    Clock(ClockError),
    /// A configured value was refused.
    Config(ConfigError),
    /// No identifiers could be drawn for the session.
    Entropy(EntropyError),
}

/// The error of the `Marshal` methods.
pub type MarshalError = CodecError;

} // verus!
