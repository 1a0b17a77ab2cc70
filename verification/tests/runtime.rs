use std::time::Duration;

use risty::error::{BuildError, CodecError, ConfigError};
use risty::marshal::to_bytes;
use risty::rtcp::feedback::nack::{Fci, GenericNack};
use risty::rtcp::feedback::rist::{PacketRangeRequest, RangeBasedNACK, RttEcho};
use risty::rtcp::feedback::Subtype;
use risty::rtcp::header::PacketType;
use risty::rtcp::sender_report::SenderReport;
use risty::rtp::Header;
use risty::runtime::cache::{CacheEntry, RetransmissionCache, RetransmitAction};
use risty::runtime::common::RistListenerPort;
use risty::runtime::queue::{PacketRing, PUSH_LIMIT};
use risty::runtime::ring::{ENTRY_BYTES, MAX_CAPACITY};
use risty::runtime::rtp_sender::{Builder, RtpSender, RtpTransmit};
use risty::runtime::rtt::RttEstimator;
use risty::runtime::sender::{outbound_buffers, FeedbackEvent, Sender, SenderConfig};

#[test]
fn listener_port_must_be_even_and_in_range() {
    assert_eq!(RistListenerPort::new(2).unwrap().port(), 2);
    assert_eq!(RistListenerPort::new(65534).unwrap().port(), 65534);
    assert_eq!(RistListenerPort::new(5004).unwrap().rtcp_port(), 5005);
    assert_eq!(RistListenerPort::new(0), Err(ConfigError::InvalidListenerPort));
    assert_eq!(RistListenerPort::new(1), Err(ConfigError::InvalidListenerPort));
    assert_eq!(RistListenerPort::new(3), Err(ConfigError::InvalidListenerPort));
    assert_eq!(RistListenerPort::new(65535), Err(ConfigError::InvalidListenerPort));
}

#[test]
fn cache_refuses_a_capacity_out_of_range() {
    assert!(matches!(RetransmissionCache::new(0, 1), Err(ConfigError::InvalidBufferSize)));
    assert!(matches!(
        RetransmissionCache::new(MAX_CAPACITY + 1, 1),
        Err(ConfigError::InvalidBufferSize)
    ));
    assert!(matches!(RetransmissionCache::new(usize::MAX, 1), Err(ConfigError::InvalidBufferSize)));
    let cache = RetransmissionCache::new(65536, 1).unwrap();
    assert_eq!(cache.capacity(), 65536);
    assert_eq!(cache.len(), 0);
    assert_eq!(cache.max_retries(), 1);
    let mut large = RetransmissionCache::new(100_000, 1).unwrap();
    assert_eq!(large.capacity(), 100_000);
    large.record(7, vec![1], 2);
    assert_eq!(large.find(7), Some(0));
}

#[test]
fn the_largest_capacity_is_what_the_machine_can_hold() {
    assert_eq!(MAX_CAPACITY, usize::MAX / 256);
    assert!(std::mem::size_of::<CacheEntry>() <= ENTRY_BYTES);
    assert!(MAX_CAPACITY
        .next_power_of_two()
        .checked_mul(std::mem::size_of::<CacheEntry>())
        .is_some_and(|bytes| bytes <= isize::MAX as usize));
    assert_eq!(PUSH_LIMIT, usize::MAX / 2);
}

fn entry(sequence_number: u16) -> CacheEntry {
    CacheEntry { sequence_number, bytes: vec![sequence_number as u8], send_time: 0, retry_count: 0 }
}

#[test]
fn full_queue_loses_its_oldest_entry() {
    assert!(matches!(PacketRing::new(0), Err(ConfigError::InvalidBufferSize)));
    assert!(matches!(PacketRing::new(MAX_CAPACITY + 1), Err(ConfigError::InvalidBufferSize)));
    assert_eq!(PacketRing::new(65537).unwrap().capacity(), 65537);
    let mut queue = PacketRing::new(3).unwrap();
    assert_eq!(queue.capacity(), 3);
    assert_eq!(queue.pop(), None);
    for n in 1..=5u16 {
        queue.push(entry(n));
    }
    assert_eq!(queue.len(), 3);
    assert_eq!(queue.get(0), Some(&entry(3)));
    assert_eq!(queue.get(2), Some(&entry(5)));
    assert_eq!(queue.get(3), None);
    assert_eq!(queue.pop(), Some(entry(3)));
    assert_eq!(queue.pop(), Some(entry(4)));
    queue.push(entry(6));
    assert_eq!(queue.pop(), Some(entry(5)));
    assert_eq!(queue.pop(), Some(entry(6)));
    assert_eq!(queue.pop(), None);
    assert_eq!(queue.len(), 0);
}

#[test]
fn full_cache_drops_the_packet_sent_first() {
    let capacity = 4usize;
    let mut cache = RetransmissionCache::new(capacity, 3).unwrap();
    for n in 0..=capacity as u16 {
        cache.record(100 + n, vec![n as u8; 3], 1000 + n as u64);
    }
    assert_eq!(cache.len(), capacity);
    assert_eq!(cache.find(100), None);
    assert_eq!(cache.entry(capacity), None);
    assert_eq!(cache.lookup_for_retransmit(100), None);
    assert_eq!(cache.retransmit(100), RetransmitAction::NotCached);
    for n in 1..=capacity as u16 {
        assert_eq!(cache.find(100 + n), Some(n as usize - 1));
        assert_eq!(
            *cache.entry(n as usize - 1).unwrap(),
            CacheEntry { sequence_number: 100 + n, bytes: vec![n as u8; 3], send_time: 1000 + n as u64, retry_count: 0 }
        );
    }
}

#[test]
fn recording_a_sequence_number_again_replaces_its_entry() {
    let mut cache = RetransmissionCache::new(3, 3).unwrap();
    cache.record(1, vec![1], 10);
    cache.record(2, vec![2], 11);
    cache.record(3, vec![3], 12);
    assert_eq!(cache.lookup_for_retransmit(2), Some(vec![2]));
    cache.record(2, vec![22], 13);
    assert_eq!(cache.len(), 3);
    assert_eq!(cache.find(1), Some(0));
    assert_eq!(cache.find(3), Some(1));
    assert_eq!(cache.find(2), Some(2));
    assert_eq!(*cache.entry(2).unwrap(), CacheEntry { sequence_number: 2, bytes: vec![22], send_time: 13, retry_count: 0 });
    cache.record(4, vec![4], 14);
    assert_eq!(cache.find(1), None);
    assert_eq!(cache.find(3), Some(0));
    assert_eq!(cache.find(2), Some(1));
    assert_eq!(cache.find(4), Some(2));
}

#[test]
fn lookup_counts_the_retry() {
    let mut cache = RetransmissionCache::new(2, 0).unwrap();
    cache.record(9, vec![1, 2, 3], 5);
    assert_eq!(cache.lookup_for_retransmit(9), Some(vec![1, 2, 3]));
    assert_eq!(cache.lookup_for_retransmit(9), Some(vec![1, 2, 3]));
    assert_eq!(cache.entry(0).unwrap().retry_count, 2);
    assert_eq!(cache.lookup_for_retransmit(8), None);
    assert_eq!(cache.entry(0).unwrap().retry_count, 2);
}

#[test]
fn retries_are_bounded() {
    let mut cache = RetransmissionCache::new(2, 2).unwrap();
    cache.record(9, vec![7], 5);
    assert_eq!(cache.retransmit(9), RetransmitAction::Resend(vec![7]));
    assert_eq!(cache.retransmit(9), RetransmitAction::Resend(vec![7]));
    assert_eq!(cache.retransmit(9), RetransmitAction::RetryBudgetExhausted);
    assert_eq!(cache.retransmit(9), RetransmitAction::RetryBudgetExhausted);
    assert_eq!(cache.entry(0).unwrap().retry_count, 2);
    assert_eq!(cache.retransmit(10), RetransmitAction::NotCached);
}

#[test]
fn generic_nack_is_answered_in_the_order_of_its_entries() {
    let mut cache = RetransmissionCache::new(8, 1).unwrap();
    cache.record(100, vec![0], 1);
    cache.record(102, vec![2], 2);
    cache.record(200, vec![9], 3);
    let nack = GenericNack::new(1, &[Fci { pid: 100, blp: 0b11 }, Fci { pid: 200, blp: 0 }, Fci { pid: 102, blp: 0 }]);
    let answers = cache.handle_generic_nack(&nack);
    assert_eq!(
        answers,
        vec![
            (100, RetransmitAction::Resend(vec![0])),
            (101, RetransmitAction::NotCached),
            (102, RetransmitAction::Resend(vec![2])),
            (200, RetransmitAction::Resend(vec![9])),
            (102, RetransmitAction::RetryBudgetExhausted),
        ]
    );
    let ranges = RangeBasedNACK::new(1, &[PacketRangeRequest { seq_start: 199, nb_consecutive: 1 }]);
    assert_eq!(
        cache.handle_range_nack(&ranges),
        vec![(199, RetransmitAction::NotCached), (200, RetransmitAction::RetryBudgetExhausted)]
    );
    assert_eq!(cache.retransmit_all(&vec![]), vec![]);
}

#[test]
fn round_trip_is_the_time_elapsed_less_the_processing_delay() {
    let mut estimator = RttEstimator::new(4, 1_000).unwrap();
    let request = estimator.send_echo_request(7, 2, 100);
    assert_eq!(request, RttEcho::new_request(7, 2, 100));
    assert_eq!(estimator.pending_len(), 1);
    assert_eq!(estimator.last_rtt(), None);

    let stray = RttEcho::new_response(7, 101, 10, 2);
    assert_eq!(estimator.handle_echo_response(&stray, 150), None);
    assert_eq!(estimator.pending_len(), 1);
    assert_eq!(estimator.last_rtt(), None);

    let response = RttEcho::new_response(7, 100, 10, 2);
    assert_eq!(estimator.handle_echo_response(&response, 150), Some(40));
    assert_eq!(estimator.pending_len(), 0);
    assert_eq!(estimator.last_rtt(), Some(40));

    assert_eq!(estimator.handle_echo_response(&response, 160), None);
    assert_eq!(estimator.last_rtt(), Some(40));
}

#[test]
fn responses_that_answer_nothing_are_dropped() {
    let mut estimator = RttEstimator::new(4, 1_000).unwrap();
    estimator.send_echo_request(7, 0, 100);
    let request = RttEcho::new_request(7, 0, 100);
    assert_eq!(estimator.handle_echo_response(&request, 150), None);
    let early = RttEcho::new_response(7, 100, 0, 0);
    assert_eq!(estimator.handle_echo_response(&early, 99), None);
    let slow = RttEcho::new_response(7, 100, 51, 0);
    assert_eq!(estimator.handle_echo_response(&slow, 150), None);
    let late = RttEcho::new_response(7, 100, 0, 0);
    assert_eq!(estimator.handle_echo_response(&late, 1_101), None);
    assert_eq!(estimator.pending_len(), 1);
    assert_eq!(estimator.handle_echo_response(&late, 1_100), Some(1_000));
    assert_eq!(estimator.pending_len(), 0);
}

#[test]
fn pending_requests_are_bounded_and_expire() {
    let mut estimator = RttEstimator::new(2, 1_000).unwrap();
    estimator.send_echo_request(1, 0, 10);
    estimator.send_echo_request(1, 0, 20);
    estimator.send_echo_request(1, 0, 30);
    assert_eq!(estimator.pending_len(), 2);
    assert_eq!(estimator.handle_echo_response(&RttEcho::new_response(1, 10, 0, 0), 40), None);
    assert_eq!(estimator.handle_echo_response(&RttEcho::new_response(1, 20, 0, 0), 40), Some(20));
    estimator.send_echo_request(1, 0, 2_000);
    assert_eq!(estimator.pending_len(), 1);
    assert_eq!(estimator.handle_echo_response(&RttEcho::new_response(1, 30, 0, 0), 2_001), None);
    assert_eq!(estimator.handle_echo_response(&RttEcho::new_response(1, 2_000, 1, 0), 2_001), Some(0));

    assert!(matches!(RttEstimator::new(0, 1_000), Err(ConfigError::InvalidPendingLimit)));
    let mut one = RttEstimator::new(1, 1_000).unwrap();
    one.send_echo_request(1, 0, 10);
    one.send_echo_request(1, 0, 11);
    assert_eq!(one.pending_len(), 1);
    assert_eq!(one.handle_echo_response(&RttEcho::new_response(1, 10, 0, 0), 12), None);
    assert_eq!(one.handle_echo_response(&RttEcho::new_response(1, 11, 0, 0), 12), Some(1));
}

#[test]
fn echo_request_is_answered_with_its_own_timestamp() {
    let request = RttEcho::new_request(9, 3, 0xABCD);
    let response = RttEstimator::handle_echo_request(&request, 1_000, 1_250);
    assert_eq!(
        response,
        RttEcho { subtype: Subtype::EchoResponse, ssrc: 9, timestamp: 0xABCD, processing_delay: 250, padding_size: 3 }
    );
    assert_eq!(RttEstimator::handle_echo_request(&request, 1_000, 999).processing_delay, 0);
}

#[test]
fn builder_checks_its_settings() {
    assert_eq!(Builder::default().check(), None);
    assert_eq!(RtpSender::new().set_payload_type(128).check(), Some(ConfigError::InvalidPayloadType));
    assert_eq!(RtpSender::new().set_buffer_size(0).check(), Some(ConfigError::InvalidBufferSize));
    assert_eq!(RtpSender::new().set_buffer_size(65537).check(), None);
    if usize::BITS >= 64 {
        assert_eq!(RtpSender::new().set_buffer_size(u32::MAX).check(), None);
    }
    let wide = RtpSender::new().set_buffer_size(70_000).build_with(1, 2, 3).unwrap();
    assert_eq!(wide.cache().capacity(), 70_000);
    assert_eq!(RtpSender::new().set_payload_type(200).set_buffer_size(0).check(), Some(ConfigError::InvalidPayloadType));
    assert!(matches!(
        RtpSender::new().set_buffer_size(0).build(),
        Err(BuildError::Config(ConfigError::InvalidBufferSize))
    ));
    assert!(matches!(
        RtpSender::new().set_payload_type(128).build_with(1, 2, 3),
        Err(BuildError::Config(ConfigError::InvalidPayloadType))
    ));
    let sender = RtpSender::new()
        .set_payload_type(96)
        .set_clock_frequency(90_000)
        .set_buffer_size(2048)
        .set_max_retries(5)
        .build()
        .unwrap();
    assert_eq!(sender.header().payload_type, 96);
    assert_eq!(sender.header().version, 2);
    assert_eq!(sender.cache().capacity(), 2048);
    assert_eq!(sender.cache().max_retries(), 5);
    assert_eq!(sender.cache().len(), 0);
    assert_eq!(sender.queued_len(), 0);
}

#[test]
fn default_settings() {
    let sender = Builder::default().build_with(10, 20, 30).unwrap();
    assert_eq!(sender.header(), Header::with_identifiers(96, 10, false, 20, 30));
    assert_eq!(sender.cache().capacity(), 1024);
    assert_eq!(sender.cache().max_retries(), 7);
    let clocked = Builder::default().build_with(0, 0, 0).unwrap();
    let mut clocked = clocked;
    let bytes = clocked.send(vec![], Duration::from_secs(42), false);
    assert_eq!(&bytes[4..8], &3_780_000u32.to_be_bytes());
}

#[test]
fn sent_packets_are_stamped_numbered_and_cached() {
    let mut sender = RtpSender::new().set_buffer_size(2).build_with(0, 0xFFFF, 0x01020304).unwrap();
    let bytes = sender.send(vec![1, 2, 3], Duration::from_millis(42_042), true);
    assert_eq!(
        bytes,
        vec![0x80, 0xE0, 0x00, 0x00, 0x00, 0x39, 0xBC, 0x64, 0x01, 0x02, 0x03, 0x04, 1, 2, 3]
    );
    assert_eq!(sender.header(), Header { marker: true, ..Header::with_identifiers(96, 3_783_780, false, 0, 0x01020304) });
    assert_eq!(sender.cache().len(), 1);
    assert_eq!(
        *sender.cache().entry(0).unwrap(),
        CacheEntry { sequence_number: 0, bytes: bytes.clone(), send_time: 42_042_000, retry_count: 0 }
    );
    assert_eq!(sender.queued_len(), 0);
}

#[test]
fn queued_packets_are_fetched_oldest_first() {
    let mut sender = RtpSender::new().set_buffer_size(2).build_with(0, 0, 1).unwrap();
    let mut buf = [0xEEu8; 16];
    assert_eq!(sender.poll_transmit(&mut buf, Duration::ZERO), Ok(0));
    assert_eq!(buf, [0xEEu8; 16]);

    sender.push_to_queue(vec![10], Duration::from_secs(1), false);
    sender.push_to_queue(vec![20, 21], Duration::from_secs(2), false);
    assert_eq!(sender.queued_len(), 2);
    let mut small = [0u8; 12];
    assert_eq!(sender.poll_transmit(&mut small, Duration::ZERO), Err(CodecError::BufferTooSmall));
    assert_eq!(small, [0u8; 12]);
    assert_eq!(sender.queued_len(), 2);

    assert_eq!(sender.poll_transmit(&mut buf, Duration::ZERO), Ok(13));
    assert_eq!(&buf[2..4], &[0, 1]);
    assert_eq!(buf[12], 10);
    assert_eq!(&buf[13..], &[0xEE; 3]);
    assert_eq!(sender.poll_transmit(&mut buf, Duration::ZERO), Ok(14));
    assert_eq!(&buf[2..4], &[0, 2]);
    assert_eq!(&buf[12..14], &[20, 21]);
    assert_eq!(sender.poll_transmit(&mut buf, Duration::ZERO), Ok(0));
    assert_eq!(sender.cache().len(), 2);

    sender.push_to_queue(vec![3], Duration::from_secs(3), false);
    sender.push_to_queue(vec![4], Duration::from_secs(4), false);
    sender.push_to_queue(vec![5], Duration::from_secs(5), false);
    assert_eq!(sender.queued_len(), 2);
    assert_eq!(sender.poll_transmit(&mut buf, Duration::ZERO), Ok(13));
    assert_eq!(buf[12], 4);
}

fn sender() -> Sender {
    let rtp = RtpSender::new().set_buffer_size(4).set_max_retries(1).build_with(0, 99, 0x0A0B0C0D).unwrap();
    let rtt = RttEstimator::new(4, 1_000_000).unwrap();
    Sender::with_rtp_sender(rtp, rtt, String::from("192.0.2.1:5004"))
}

#[test]
fn push_hands_out_the_packet_and_its_destination() {
    let mut sender = sender();
    let (bytes, transmit) = sender.push(vec![1, 2], Duration::from_secs(1), false);
    assert_eq!(bytes.len(), 14);
    assert_eq!(&bytes[2..4], &[0, 100]);
    assert_eq!(transmit, RtpTransmit { remote_sockaddr: String::from("192.0.2.1:5004"), buf_size: 14 });
    assert_eq!(sender.rtp_sender().cache().find(100), Some(0));
}

#[test]
fn feedback_is_handled_packet_by_packet() {
    let mut sender = sender();
    let (first, _) = sender.push(vec![1], Duration::from_secs(1), false);
    let (second, _) = sender.push(vec![2], Duration::from_secs(2), false);
    let request = sender.send_echo_request(0, Duration::from_micros(5_000_000));
    assert_eq!(request, RttEcho::new_request(0x0A0B0C0D, 0, 5_000_000));

    let mut datagram = to_bytes(&SenderReport::new(1)).unwrap();
    datagram.extend_from_slice(&[0x85, 207, 0x00, 0x00]);
    datagram.extend_from_slice(&to_bytes(&GenericNack::new(7, &[Fci { pid: 100, blp: 0b11 }])).unwrap());
    datagram.extend_from_slice(&to_bytes(&RttEcho::new_response(0x0A0B0C0D, 5_000_000, 100, 0)).unwrap());
    datagram.extend_from_slice(&to_bytes(&RttEcho::new_request(3, 0, 77)).unwrap());
    datagram.extend_from_slice(&to_bytes(&RangeBasedNACK::new(7, &[PacketRangeRequest { seq_start: 101, nb_consecutive: 0 }])).unwrap());

    let events = sender.handle_inbound_rtcp(&datagram, Duration::from_micros(5_000_500)).unwrap();
    assert_eq!(
        events,
        vec![
            FeedbackEvent::Report(PacketType::SenderReport),
            FeedbackEvent::Ignored { packet_type: 207, packet_specific: 5 },
            FeedbackEvent::Retransmissions(vec![
                (100, RetransmitAction::Resend(first)),
                (101, RetransmitAction::Resend(second)),
                (102, RetransmitAction::NotCached),
            ]),
            FeedbackEvent::RoundTrip(Some(400)),
            FeedbackEvent::EchoRequested(RttEcho::new_request(3, 0, 77)),
            FeedbackEvent::Retransmissions(vec![(101, RetransmitAction::RetryBudgetExhausted)]),
        ]
    );
    assert_eq!(sender.last_rtt(), Some(400));
    let resent = outbound_buffers(&events);
    assert_eq!(resent.len(), 2);
    assert_eq!(&resent[0][2..4], &[0, 100]);
    assert_eq!(&resent[1][2..4], &[0, 101]);
    assert_eq!(outbound_buffers(&vec![]).len(), 0);
}

#[test]
fn a_datagram_with_a_fault_changes_nothing() {
    let mut sender = sender();
    sender.push(vec![1], Duration::from_secs(1), false);
    let mut datagram = to_bytes(&GenericNack::new(7, &[Fci { pid: 100, blp: 0 }])).unwrap();
    datagram.extend_from_slice(&[0x80, 0xC8, 0x00, 0x06, 0, 0]);
    assert_eq!(
        sender.handle_inbound_rtcp(&datagram, Duration::from_secs(2)),
        Err(CodecError::Truncated)
    );
    assert_eq!(sender.rtp_sender().cache().entry(0).unwrap().retry_count, 0);
}

#[test]
fn sender_is_built_from_its_configuration() {
    let config = SenderConfig {
        rtp: RtpSender::new().set_payload_type(97),
        rtt_max_pending: 2,
        rtt_timeout: 10,
        remote_sockaddr: String::from("198.51.100.7:6000"),
    };
    let mut sender = Sender::new(config).unwrap();
    assert_eq!(sender.rtp_sender().header().payload_type, 97);
    assert_eq!(sender.last_rtt(), None);
    let (_, transmit) = sender.push(vec![], Duration::from_secs(1), false);
    assert_eq!(transmit.remote_sockaddr, "198.51.100.7:6000");
    let bad = SenderConfig {
        rtp: RtpSender::new().set_payload_type(255),
        rtt_max_pending: 2,
        rtt_timeout: 10,
        remote_sockaddr: String::new(),
    };
    assert!(matches!(Sender::new(bad), Err(BuildError::Config(ConfigError::InvalidPayloadType))));
    let no_room = SenderConfig {
        rtp: RtpSender::new(),
        rtt_max_pending: 0,
        rtt_timeout: 10,
        remote_sockaddr: String::new(),
    };
    assert!(matches!(
        Sender::new(no_room),
        Err(BuildError::Config(ConfigError::InvalidPendingLimit))
    ));
}

#[test]
fn instants_can_be_given_by_their_parts() {
    let mut by_parts = RtpSender::new().set_buffer_size(2).build_with(0, 7, 1).unwrap();
    let mut by_duration = RtpSender::new().set_buffer_size(2).build_with(0, 7, 1).unwrap();
    let a = by_parts.send_at(vec![1, 2], 42, 42_000_000, true);
    let b = by_duration.send(vec![1, 2], Duration::new(42, 42_000_000), true);
    assert_eq!(a, b);
    assert_eq!(a, vec![0x80, 0xE0, 0x00, 0x08, 0x00, 0x39, 0xBC, 0x64, 0, 0, 0, 1, 1, 2]);
    by_parts.push_to_queue_at(vec![3], 43, 0, false);
    by_duration.push_to_queue(vec![3], Duration::from_secs(43), false);
    let mut first = [0u8; 13];
    let mut second = [0u8; 13];
    assert_eq!(by_parts.poll_transmit(&mut first, Duration::ZERO), Ok(13));
    assert_eq!(by_duration.poll_transmit(&mut second, Duration::ZERO), Ok(13));
    assert_eq!(first, second);
    assert_eq!(&first[2..8], &[0x00, 0x09, 0x00, 0x3B, 0x0D, 0x30]);

    let mut one = sender();
    let mut other = sender();
    assert_eq!(
        one.push_at(vec![5], 1, 500, false),
        other.push(vec![5], Duration::new(1, 500), false)
    );
    assert_eq!(
        one.send_echo_request_at(1, 2_000_003),
        other.send_echo_request(1, Duration::new(2, 3_999))
    );
    let response = to_bytes(&RttEcho::new_response(0x0A0B0C0D, 2_000_003, 3, 1)).unwrap();
    assert_eq!(
        one.handle_inbound_rtcp_at(&response, 2_000_010),
        Ok(vec![FeedbackEvent::RoundTrip(Some(4))])
    );
    assert_eq!(
        other.handle_inbound_rtcp(&response, Duration::from_micros(2_000_010)),
        Ok(vec![FeedbackEvent::RoundTrip(Some(4))])
    );
}
