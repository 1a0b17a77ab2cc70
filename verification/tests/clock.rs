use std::time::Duration;

use risty::clock::ntp::ntp_timestamp;
use risty::clock::wall::{micros_from_parts, micros_since_epoch};
use risty::clock::{NtpTimestamp, RtpClock};

#[test]
fn test_duration_to_timestamp() {
    let want = NtpTimestamp {
        seconds: 45,
        fraction: 5_000_000,
    };
    let got = NtpTimestamp::from(Duration::from_millis(45005));

    assert_eq!(got, want)
}

#[test]
fn test_duration_no_secs_to_timestamp() {
    let want = NtpTimestamp {
        seconds: 0,
        fraction: 42,
    };

    let got = NtpTimestamp::from(Duration::from_nanos(42));

    assert_eq!(got, want);
}

#[test]
fn test_duration_no_nanos_to_timestamp() {
    let want = NtpTimestamp {
        seconds: 42,
        fraction: 0,
    };

    let got = NtpTimestamp::from(Duration::from_secs(42));

    assert_eq!(got, want);
}

#[test]
fn test_timestamp_from_duration_secs_only() {
    let clock = RtpClock::new(90_000);

    let want = 3780000;
    let got = clock.timestamp_from_duration(Duration::from_secs(42));

    assert_eq!(want, got);
}

#[test]
fn test_timestamp_from_duration_fracts_only() {
    let clock = RtpClock::new(90_000);

    let want = 3780;
    let got = clock.timestamp_from_duration(Duration::from_millis(42));

    assert_eq!(want, got);
}

#[test]
fn test_timestamp_from_duration_both() {
    let clock = RtpClock::new(90_000);

    let want = 3783780;
    let got = clock.timestamp_from_duration(Duration::from_millis(42042));

    assert_eq!(want, got);
}

#[test]
fn test_timestamp_from_duration_wrap() {
    let clock = RtpClock::new(27_000_000);

    let want = 1684748784;
    let got = clock.timestamp_from_duration(Duration::from_millis(1234567891234));

    assert_eq!(want, got);
}

#[test]
fn timestamp_from_parts_agrees_with_duration() {
    let clock = RtpClock::new(27_000_000);
    assert_eq!(clock.timestamp_from_parts(1_234_567_891, 234_000_000), 1_684_748_784);
    assert_eq!(clock.timestamp_from_parts(42, 42_000_000), 1_135_134_000);
    let slow = RtpClock::new(90_000);
    assert_eq!(slow.timestamp_from_parts(0, 999_999_999), 89_999);
    assert_eq!(slow.timestamp_from_parts(0, 11_111), 0);
}

#[test]
fn timestamp_wraps_at_two_to_the_thirty_two() {
    let clock = RtpClock::new(90_000);
    // 47721 s * 90000 = 4_294_890_000 = 2^32 - 77_296
    assert_eq!(clock.timestamp_from_parts(47_721, 0), 4_294_890_000);
    assert_eq!(clock.timestamp_from_parts(47_722, 0), 12_704);
    let later = clock.timestamp_from_parts(47_722, 0);
    let earlier = clock.timestamp_from_parts(47_721, 0);
    assert_eq!(later.wrapping_sub(earlier), 90_000);
}

#[test]
fn timestamp_survives_a_product_beyond_sixty_four_bits() {
    let clock = RtpClock::new(u32::MAX);
    let secs = u64::MAX;
    let want = ((secs as u128 * u32::MAX as u128) % (1u128 << 32)) as u32;
    assert_eq!(clock.timestamp_from_parts(secs, 0), want);
}

#[test]
fn timestamp_from_reading_of_the_clock() {
    let clock = RtpClock::new(90_000);
    assert_eq!(clock.timestamp_from_reading(Ok(Duration::from_secs(42))), Ok(3_780_000));
    assert!(clock.now().is_ok());
}

#[test]
fn ntp_timestamp_of_a_duration() {
    assert_eq!(
        ntp_timestamp(Duration::new(45, 5_000_000)),
        NtpTimestamp { seconds: 45, fraction: 5_000_000 }
    );
    assert_eq!(
        NtpTimestamp::from_parts((1u64 << 32) + 7, 9),
        NtpTimestamp { seconds: 7, fraction: 9 }
    );
    assert_eq!(NtpTimestamp { seconds: 3, fraction: 4 }.to_u64(), (3u64 << 32) | 4);
}

#[test]
fn microseconds_of_a_duration() {
    assert_eq!(micros_since_epoch(Duration::new(2, 3_999)), 2_000_003);
    assert_eq!(micros_from_parts(0, 999), 0);
    assert_eq!(micros_from_parts(u64::MAX, 0), u64::MAX);
    assert_eq!(micros_from_parts(u64::MAX / 1_000_000, 999_999_999), u64::MAX);
    assert_eq!(micros_from_parts(u64::MAX / 1_000_000, 551_615_999), u64::MAX);
    assert_eq!(micros_from_parts(u64::MAX / 1_000_000, 551_614_999), u64::MAX - 1);
}
