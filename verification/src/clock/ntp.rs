//! NTP-style timestamps: 32 bits of seconds and 32 bits of fraction.
use std::time::Duration;
use vstd::prelude::*;
use vstd::std_specs::convert::FromSpecImpl;
use crate::clock::system::{duration_secs, duration_subsec_nanos};

verus! {

/// A point in time as seconds and a sub-second remainder.
///
/// The remainder is kept in nanoseconds, as the duration gave it, and not
/// rescaled to a binary fraction of a second.
#[derive(Clone, Copy, Debug, PartialEq, Eq, Structural)]
pub struct NtpTimestamp {
    /// Whole seconds, modulo 2^32.
    pub seconds: u32,
    /// Nanoseconds beyond the whole seconds.
    pub fraction: u32,
}

impl NtpTimestamp {
    /// The timestamp of a duration of `secs` seconds and `nanos` nanoseconds.
    pub open spec fn of(secs: u64, nanos: u32) -> NtpTimestamp {
        NtpTimestamp { seconds: (secs % 0x1_0000_0000) as u32, fraction: nanos }
    }

    /// The timestamp of a duration given by its seconds and nanoseconds.
    pub fn from_parts(secs: u64, nanos: u32) -> (t: NtpTimestamp)
        ensures
            t == NtpTimestamp::of(secs, nanos),
    {
        NtpTimestamp { seconds: (secs % 0x1_0000_0000) as u32, fraction: nanos }
    }

    /// Seconds in the upper 32 bits, fraction in the lower 32.
    pub open spec fn packed(self) -> u64 {
        (self.seconds * 0x1_0000_0000 + self.fraction) as u64
    }

    /// The timestamp as one 64-bit number, as a sender report carries it.
    pub fn to_u64(&self) -> (x: u64)
        ensures
            x == self.packed(),
    {
        let seconds: u64 = self.seconds as u64;
        let fraction: u64 = self.fraction as u64;
        seconds * 0x1_0000_0000 + fraction
    }
}

impl From<Duration> for NtpTimestamp {
    fn from(value: Duration) -> (t: NtpTimestamp) {
        NtpTimestamp::from_parts(value.as_secs(), value.subsec_nanos())
    }
}

impl FromSpecImpl<Duration> for NtpTimestamp {
    open spec fn obeys_from_spec() -> bool {
        true
    }

    open spec fn from_spec(value: Duration) -> NtpTimestamp {
        NtpTimestamp::of(duration_secs(value), duration_subsec_nanos(value))
    }
}

/// The NTP timestamp of a duration since the epoch. Never fails.
pub fn ntp_timestamp(duration: Duration) -> (t: NtpTimestamp)
    ensures
        t == NtpTimestamp::of(duration_secs(duration), duration_subsec_nanos(duration)),
{
    NtpTimestamp::from_parts(duration.as_secs(), duration.subsec_nanos())
}

} // verus!
