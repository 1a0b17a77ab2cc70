//! The media clock: RTP timestamps from wall-clock durations.
use std::time::{Duration, SystemTimeError};
use vstd::arithmetic::div_mod::{lemma_add_mod_noop, lemma_mod_mod};
use vstd::prelude::*;
use crate::clock::system::{duration_secs, duration_subsec_nanos, since_epoch};
use crate::error::ClockError;

verus! {

/// Nanoseconds in a second.
pub const NANOS_PER_SEC: u64 = 1_000_000_000;

/// A clock that ticks `freq` times a second.
pub struct RtpClock {
    freq: u32,
}

/// Ticks of a clock of rate `freq` in `secs` seconds and `nanos` nanoseconds,
/// the part of a tick that the nanoseconds leave over being dropped.
pub open spec fn ticks(freq: u32, secs: u64, nanos: u32) -> int {
    secs * freq + (freq * nanos) / (NANOS_PER_SEC as int)
}

/// The RTP timestamp of that instant: its ticks modulo 2^32.
pub open spec fn rtp_timestamp(freq: u32, secs: u64, nanos: u32) -> u32 {
    (ticks(freq, secs, nanos) % 0x1_0000_0000) as u32
}

impl RtpClock {
    /// Ticks per second.
    pub closed spec fn frequency(&self) -> u32 {
        self.freq
    }

    /// A clock of `freq` ticks per second.
    pub fn new(freq: u32) -> (clock: RtpClock)
        ensures
            clock.frequency() == freq,
    {
        RtpClock { freq }
    }

    /// The timestamp of the instant `secs` seconds and `nanos` nanoseconds
    /// after the epoch. The product of seconds and rate is taken in 64 bits
    /// and wraps there, which leaves its lower 32 bits as they are.
    pub fn timestamp_from_parts(&self, secs: u64, nanos: u32) -> (ts: u32)
        ensures
            ts == rtp_timestamp(self.frequency(), secs, nanos),
    {
        let freq: u64 = self.freq as u64;
        let whole: u64 = secs.wrapping_mul(freq) % 0x1_0000_0000;
        assert(freq * nanos <= 0xffff_ffff * 0xffff_ffff) by (nonlinear_arith)
            requires
                freq <= 0xffff_ffff,
                nanos <= 0xffff_ffff,
        ;
        let fract: u64 = (freq * (nanos as u64)) / NANOS_PER_SEC % 0x1_0000_0000;
        proof {
            let product: int = secs * freq;
            let part: int = (freq * nanos) / (NANOS_PER_SEC as int);
            assert(0 <= product) by (nonlinear_arith)
                requires
                    product == secs * freq,
            ;
            lemma_mod_mod(product, 0x1_0000_0000, 0x1_0000_0000);
            assert(whole == product % 0x1_0000_0000);
            lemma_add_mod_noop(product, part, 0x1_0000_0000);
        }
        ((whole + fract) % 0x1_0000_0000) as u32
    }

    /// The timestamp of the instant that lies `duration` after the epoch:
    /// `(seconds * freq + floor(freq * nanoseconds / 10^9)) mod 2^32`.
    pub fn timestamp_from_duration(&self, duration: Duration) -> (ts: u32)
        ensures
            ts == rtp_timestamp(
                self.frequency(),
                duration_secs(duration),
                duration_subsec_nanos(duration),
            ),
    {
        self.timestamp_from_parts(duration.as_secs(), duration.subsec_nanos())
    }

    /// The timestamp that belongs to a reading of the system clock: that of
    /// the duration where there is one, and an error where the clock stood
    /// before the epoch.
    pub fn timestamp_from_reading(&self, reading: Result<Duration, SystemTimeError>) -> (r: Result<
        u32,
        ClockError,
    >)
        ensures
            match reading {
                Ok(d) => r == Ok::<u32, ClockError>(
                    rtp_timestamp(self.frequency(), duration_secs(d), duration_subsec_nanos(d)),
                ),
                Err(_) => r == Err::<u32, ClockError>(ClockError::SystemClockBeforeEpoch),
            },
    {
        match reading {
            Ok(d) => Ok(self.timestamp_from_duration(d)),
            Err(_) => Err(ClockError::SystemClockBeforeEpoch),
        }
    }

    /// The timestamp of the present moment, read from the system clock.
    ///
    /// Which moment that is cannot be known here: a timestamp that comes back
    /// is that of some duration, and the only error is a clock that stands
    /// before the epoch.
    pub fn now(&self) -> (r: Result<u32, ClockError>)
        ensures
            match r {
                Ok(ts) => exists|d: Duration|
                    ts == rtp_timestamp(
                        self.frequency(),
                        #[trigger] duration_secs(d),
                        duration_subsec_nanos(d),
                    ),
                Err(e) => e == ClockError::SystemClockBeforeEpoch,
            },
    {
        let reading = since_epoch(std::time::SystemTime::now());
        let ghost read = reading;
        let r = self.timestamp_from_reading(reading);
        proof {
            if let Ok(d) = read {
                assert(r.unwrap() == rtp_timestamp(
                    self.frequency(),
                    duration_secs(d),
                    duration_subsec_nanos(d),
                ));
            }
        }
        r
    }
}

/// Between two instants whose tick counts lie less than 2^32 apart, the
/// difference of the timestamps, taken modulo 2^32, is the number of ticks
/// from the earlier to the later: the order of the instants survives the
/// wrap.
pub proof fn lemma_timestamp_difference(
    freq: u32,
    secs1: u64,
    nanos1: u32,
    secs2: u64,
    nanos2: u32,
)
    requires
        ticks(freq, secs1, nanos1) <= ticks(freq, secs2, nanos2),
        ticks(freq, secs2, nanos2) - ticks(freq, secs1, nanos1) < 0x1_0000_0000,
    ensures
        (rtp_timestamp(freq, secs2, nanos2) - rtp_timestamp(freq, secs1, nanos1)) % 0x1_0000_0000
            == ticks(freq, secs2, nanos2) - ticks(freq, secs1, nanos1),
{
    let t1 = ticks(freq, secs1, nanos1);
    let t2 = ticks(freq, secs2, nanos2);
    assert(0 <= t1) by (nonlinear_arith)
        requires
            t1 == secs1 * freq + (freq * nanos1) / 1_000_000_000,
    ;
    assert(0 <= t2) by (nonlinear_arith)
        requires
            t2 == secs2 * freq + (freq * nanos2) / 1_000_000_000,
    ;
}

/// A later instant never has fewer ticks than an earlier one.
pub proof fn lemma_ticks_monotonic(freq: u32, secs1: u64, nanos1: u32, secs2: u64, nanos2: u32)
    requires
        nanos1 < NANOS_PER_SEC,
        nanos2 < NANOS_PER_SEC,
        secs1 < secs2 || (secs1 == secs2 && nanos1 <= nanos2),
    ensures
        ticks(freq, secs1, nanos1) <= ticks(freq, secs2, nanos2),
{
    let f: int = freq as int;
    if secs1 == secs2 {
        assert(f * nanos1 <= f * nanos2) by (nonlinear_arith)
            requires
                0 <= f,
                nanos1 <= nanos2,
        ;
        assert((f * nanos1) / 1_000_000_000 <= (f * nanos2) / 1_000_000_000);
    } else {
        assert((f * nanos1) / 1_000_000_000 <= f) by (nonlinear_arith)
            requires
                0 <= f,
                0 <= nanos1 < 1_000_000_000,
        ;
        assert(0 <= (f * nanos2) / 1_000_000_000) by (nonlinear_arith)
            requires
                0 <= f,
                0 <= nanos2,
        ;
        assert(secs1 * f + f <= secs2 * f) by (nonlinear_arith)
            requires
                0 <= f,
                secs1 + 1 <= secs2,
        ;
    }
}

} // verus!
