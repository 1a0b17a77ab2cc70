//! The boundary to `std::time`.
//!
//! A `Duration` is opaque to the verifier. What the rest of the crate needs of
//! one, its whole seconds and the nanoseconds beyond them, is given a name
//! here; the items below tie `std`'s accessors to those names and are believed
//! without proof.
use std::time::{Duration, SystemTime, SystemTimeError, UNIX_EPOCH};
use vstd::prelude::*;

verus! {

/// `std::time::SystemTime`, carried through without looking inside.
#[verifier::external_type_specification]
#[verifier::external_body]
pub struct ExSystemTime(SystemTime);

/// `std::time::SystemTimeError`, carried through without looking inside.
#[verifier::external_type_specification]
#[verifier::external_body]
pub struct ExSystemTimeError(SystemTimeError);

/// The whole seconds that `d` holds.
pub uninterp spec fn duration_secs(d: Duration) -> u64;

/// The part of `d` beyond its whole seconds, in nanoseconds.
pub uninterp spec fn duration_subsec_nanos(d: Duration) -> u32;

/// `Duration::as_secs` returns the whole seconds of the duration.
pub assume_specification[ Duration::as_secs ](d: &Duration) -> (secs: u64)
    ensures
        secs == duration_secs(*d),
;

/// `Duration::subsec_nanos` returns the fractional part of the duration in
/// nanoseconds, which `std` documents to be less than one billion.
pub assume_specification[ Duration::subsec_nanos ](d: &Duration) -> (nanos: u32)
    ensures
        nanos == duration_subsec_nanos(*d),
        nanos < 1_000_000_000,
;

/// `SystemTime::now` reads the system clock. Nothing is promised of what it
/// reads.
pub assume_specification[ SystemTime::now ]() -> SystemTime;

/// `SystemTime::duration_since`, asked for the time since the Unix epoch. It
/// fails when the time lies before the epoch; nothing is promised of which
/// duration comes back otherwise.
#[verifier::external_body]
pub(crate) fn since_epoch(t: SystemTime) -> (r: Result<Duration, SystemTimeError>) {
    t.duration_since(UNIX_EPOCH)
}

} // verus!
