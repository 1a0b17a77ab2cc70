//! Wall-clock time as a count of microseconds, the unit in which the sender
//! keeps send times and measures round trips.
use std::time::Duration;
use vstd::prelude::*;
use crate::clock::system::{duration_secs, duration_subsec_nanos};

verus! {

/// Microseconds in a second.
pub const MICROS_PER_SEC: u64 = 1_000_000;

/// The microseconds in `secs` seconds and `nanos` nanoseconds, the part of a
/// microsecond that is left over being dropped. A count beyond the range of
/// `u64` stays at its end.
pub open spec fn micros(secs: u64, nanos: u32) -> u64 {
    if secs * MICROS_PER_SEC + nanos / 1000 > u64::MAX {
        u64::MAX
    } else {
        (secs * MICROS_PER_SEC + nanos / 1000) as u64
    }
}

/// The microseconds in `secs` seconds and `nanos` nanoseconds.
pub fn micros_from_parts(secs: u64, nanos: u32) -> (m: u64)
    ensures
        m == micros(secs, nanos),
{
    match secs.checked_mul(MICROS_PER_SEC) {
        None => u64::MAX,
        Some(whole) => whole.saturating_add((nanos / 1000) as u64),
    }
}

/// The microseconds in a duration.
pub fn micros_since_epoch(duration: Duration) -> (m: u64)
    ensures
        m == micros(duration_secs(duration), duration_subsec_nanos(duration)),
{
    micros_from_parts(duration.as_secs(), duration.subsec_nanos())
}

} // verus!
