//! The RTP sender: it stamps and numbers outgoing packets, keeps them for
//! retransmission, and queues them for the caller to transmit.
use std::time::Duration;
use vstd::prelude::*;
use vstd::slice::slice_to_vec;
use crate::clock::rtp::{rtp_timestamp, RtpClock};
use crate::clock::system::{duration_secs, duration_subsec_nanos};
use crate::clock::wall::{micros, micros_from_parts};
use crate::error::{BuildError, ClockError, CodecError, ConfigError, EntropyError};
use crate::marshal::{to_bytes, Marshal};
use crate::rtp::header::Header;
use crate::rtp::packet::{Packet, PacketView};
use crate::rtcp::feedback::nack::{lost_of, GenericNack};
use crate::rtcp::feedback::rist::{lost_of_ranges, RangeBasedNACK};
use crate::runtime::cache::{
    answer_views, lemma_after_requests_well_formed, lemma_recorded_well_formed, CacheEntry,
    CacheEntryView, CacheView, RetransmissionCache, RetransmitAction,
};
use crate::runtime::queue::PacketRing;
use crate::runtime::ring::MAX_CAPACITY;
use crate::wire::{overwrite, put_bytes};

verus! {

/// Payload type of a sender that was not told another.
pub const DEFAULT_PAYLOAD_TYPE: u8 = 96;

/// Clock rate of a sender that was not told another: that of video.
pub const DEFAULT_CLOCK_FREQUENCY: u32 = 90_000;

/// Number of packets that a sender keeps if it was not told another.
pub const DEFAULT_BUFFER_SIZE: u32 = 1024;

/// Number of times that a sender hands a packet out again if it was not told
/// another.
pub const DEFAULT_MAX_RETRIES: u32 = 7;

/// The largest payload type that fits the header's seven bits.
pub const MAX_PAYLOAD_TYPE: u8 = 127;

/// Collects the settings of a sender.
#[derive(Debug)]
pub struct Builder {
    pt: u8,
    clock_freq: u32,
    buffer_size: u32,
    max_retries: u32,
}

/// The settings that a builder holds.
pub struct Settings {
    pub payload_type: u8,
    pub clock_frequency: u32,
    pub buffer_size: u32,
    pub max_retries: u32,
}

impl Settings {
    /// What is wrong with the settings, if anything: a payload type beyond
    /// seven bits first, a buffer size of zero, or one that the machine cannot
    /// hold, second.
    pub open spec fn fault(self) -> Option<ConfigError> {
        if self.payload_type > MAX_PAYLOAD_TYPE {
            Some(ConfigError::InvalidPayloadType)
        } else if self.buffer_size == 0 || self.buffer_size > MAX_CAPACITY {
            Some(ConfigError::InvalidBufferSize)
        } else {
            None
        }
    }

    /// The sender that the settings describe, with a header that starts at
    /// the given timestamp and identifiers: nothing cached, nothing queued.
    pub open spec fn sender(self, initial_timestamp: u32, sequence_number: u16, ssrc: u32)
        -> RtpSenderView {
        RtpSenderView {
            header: Header {
                version: crate::rtp::header::VERSION,
                padding: false,
                extension: false,
                csrc_count: 0,
                marker: false,
                payload_type: self.payload_type,
                sequence_number,
                timestamp: initial_timestamp,
                ssrc,
            },
            frequency: self.clock_frequency,
            cache: CacheView {
                entries: Seq::empty(),
                capacity: self.buffer_size as nat,
                max_retries: self.max_retries,
            },
            outbox: Seq::empty(),
        }
    }
}

impl Settings {
    /// The sender that the settings describe when it starts at the instant
    /// that lies `now` after the epoch: its first timestamp is that of the
    /// instant at the configured rate.
    pub open spec fn started(self, now: Duration, sequence_number: u16, ssrc: u32)
        -> RtpSenderView {
        self.sender(
            rtp_timestamp(self.clock_frequency, duration_secs(now), duration_subsec_nanos(now)),
            sequence_number,
            ssrc,
        )
    }
}

impl View for Builder {
    type V = Settings;

    closed spec fn view(&self) -> Settings {
        Settings {
            payload_type: self.pt,
            clock_frequency: self.clock_freq,
            buffer_size: self.buffer_size,
            max_retries: self.max_retries,
        }
    }
}

impl Default for Builder {
    fn default() -> (builder: Builder)
        ensures
            builder@ == (Settings {
                payload_type: DEFAULT_PAYLOAD_TYPE,
                clock_frequency: DEFAULT_CLOCK_FREQUENCY,
                buffer_size: DEFAULT_BUFFER_SIZE,
                max_retries: DEFAULT_MAX_RETRIES,
            }),
    {
        Builder {
            pt: DEFAULT_PAYLOAD_TYPE,
            clock_freq: DEFAULT_CLOCK_FREQUENCY,
            buffer_size: DEFAULT_BUFFER_SIZE,
            max_retries: DEFAULT_MAX_RETRIES,
        }
    }
}

impl Builder {
    /// Sets the RTP payload type.
    pub fn set_payload_type(self, pt: u8) -> (builder: Builder)
        ensures
            builder@ == (Settings { payload_type: pt, ..self@ }),
    {
        Builder { pt, ..self }
    }

    /// Sets the rate of the media clock, in ticks per second.
    pub fn set_clock_frequency(self, freq: u32) -> (builder: Builder)
        ensures
            builder@ == (Settings { clock_frequency: freq, ..self@ }),
    {
        Builder { clock_freq: freq, ..self }
    }

    /// Sets the number of packets that are kept for retransmission.
    pub fn set_buffer_size(self, buffer_size: u32) -> (builder: Builder)
        ensures
            builder@ == (Settings { buffer_size, ..self@ }),
    {
        Builder { buffer_size, ..self }
    }

    /// Sets the number of times that one packet is handed out again.
    pub fn set_max_retries(self, max_retries: u32) -> (builder: Builder)
        ensures
            builder@ == (Settings { max_retries, ..self@ }),
    {
        Builder { max_retries, ..self }
    }

    /// What is wrong with the settings, if anything.
    pub fn check(&self) -> (fault: Option<ConfigError>)
        ensures
            fault == self@.fault(),
    {
        if self.pt > MAX_PAYLOAD_TYPE {
            Some(ConfigError::InvalidPayloadType)
        } else if self.buffer_size == 0 || self.buffer_size as usize > MAX_CAPACITY {
            Some(ConfigError::InvalidBufferSize)
        } else {
            None
        }
    }

    /// Builds the sender whose header starts at the given timestamp and
    /// identifiers. Settings at fault are refused.
    pub fn build_with(self, initial_timestamp: u32, sequence_number: u16, ssrc: u32) -> (r: Result<
        RtpSender,
        BuildError,
    >)
        ensures
            match self@.fault() {
                Some(e) => r is Err && r->Err_0 == BuildError::Config(e),
                None => r is Ok && r->Ok_0.well_formed() && r->Ok_0@ == self@.sender(
                    initial_timestamp,
                    sequence_number,
                    ssrc,
                ),
            },
    {
        match self.check() {
            Some(e) => {
                return Err(BuildError::Config(e));
            },
            None => {},
        }
        let clock = RtpClock::new(self.clock_freq);
        let header = Header::with_identifiers(
            self.pt,
            initial_timestamp,
            false,
            sequence_number,
            ssrc,
        );
        let cache = match RetransmissionCache::new(self.buffer_size as usize, self.max_retries) {
            Err(e) => {
                return Err(BuildError::Config(e));
            },
            Ok(cache) => cache,
        };
        match PacketRing::new(self.buffer_size as usize) {
            Err(e) => Err(BuildError::Config(e)),
            Ok(outbox) => {
                let sender = RtpSender { header, clock, cache, outbox };
                assert(sender@.outbox =~= Seq::empty());
                Ok(sender)
            },
        }
    }

    /// Builds the sender. Its first timestamp is read from the system clock
    /// and its sequence number and SSRC are drawn at random, so of a sender
    /// that comes back it is known that it starts at the timestamp of some
    /// duration at the configured rate, with nothing cached and nothing
    /// queued. Settings at fault are refused before the clock is read; the
    /// other errors are a clock before the epoch and a system without
    /// randomness.
    pub fn build(self) -> (r: Result<RtpSender, BuildError>)
        ensures
            match self@.fault() {
                Some(e) => r is Err && r->Err_0 == BuildError::Config(e),
                None => match r {
                    Ok(sender) => sender.well_formed() && exists|
                        now: Duration,
                        sequence_number: u16,
                        ssrc: u32,
                    |
                        sender@ == #[trigger] self@.started(now, sequence_number, ssrc),
                    Err(e) => e == BuildError::Clock(ClockError::SystemClockBeforeEpoch) || e
                        == BuildError::Entropy(EntropyError::Unavailable),
                },
            },
    {
        match self.check() {
            Some(e) => {
                return Err(BuildError::Config(e));
            },
            None => {},
        }
        let clock = RtpClock::new(self.clock_freq);
        let timestamp: u32 = match clock.now() {
            Err(e) => {
                return Err(BuildError::Clock(e));
            },
            Ok(timestamp) => timestamp,
        };
        let ghost now = choose|d: Duration|
            timestamp == rtp_timestamp(
                self.clock_freq,
                #[trigger] duration_secs(d),
                duration_subsec_nanos(d),
            );
        let header = match Header::new(self.pt, timestamp, false, None) {
            Err(e) => {
                return Err(BuildError::Entropy(e));
            },
            Ok(header) => header,
        };
        let ghost settings = self@;
        let built = self.build_with(header.timestamp, header.sequence_number, header.ssrc);
        proof {
            if built is Ok {
                assert(built->Ok_0@ == settings.started(
                    now,
                    header.sequence_number,
                    header.ssrc,
                ));
            }
        }
        built
    }
}

/// Where a packet goes and how many bytes of the send buffer it takes.
#[derive(Debug, PartialEq, Eq)]
pub struct RtpTransmit {
    /// Address of the receiver.
    pub remote_sockaddr: String,
    /// Bytes to transmit.
    pub buf_size: usize,
}

/// The sender's state.
pub struct RtpSender {
    header: Header,
    clock: RtpClock,
    cache: RetransmissionCache,
    outbox: PacketRing,
}

/// What the sender's state is, apart from how it is stored.
pub struct RtpSenderView {
    /// The header of the packet sent last.
    pub header: Header,
    /// Rate of the media clock.
    pub frequency: u32,
    /// The packets kept for retransmission.
    pub cache: CacheView,
    /// The packets that wait for their first transmission, the oldest first.
    pub outbox: Seq<Seq<u8>>,
}

/// The packets of a queue of entries, as the bytes of each.
pub open spec fn payloads(queue: Seq<CacheEntryView>) -> Seq<Seq<u8>> {
    Seq::new(queue.len(), |i: int| queue[i].bytes)
}

impl RtpSenderView {
    /// The header is well formed, the cache too, and no more packets are
    /// queued than the cache holds.
    pub open spec fn well_formed(self) -> bool {
        &&& self.header.well_formed()
        &&& self.cache.well_formed()
        &&& self.outbox.len() <= self.cache.capacity
    }

    /// The header of the next packet, sent at `secs` seconds and `nanos`
    /// nanoseconds after the epoch.
    pub open spec fn next_header(self, secs: u64, nanos: u32, marker: bool) -> Header {
        Header {
            sequence_number: Header::next_sequence_number(self.header.sequence_number),
            timestamp: rtp_timestamp(self.frequency, secs, nanos),
            marker,
            ..self.header
        }
    }

    /// The bytes of the next packet.
    pub open spec fn next_packet(self, payload: Seq<u8>, secs: u64, nanos: u32, marker: bool)
        -> Seq<u8> {
        (PacketView { header: self.next_header(secs, nanos, marker), payload }).wire()
    }

    /// The state after that packet has been sent: the header has moved on and
    /// the packet is in the cache, with its send time in microseconds.
    pub open spec fn sent(self, payload: Seq<u8>, secs: u64, nanos: u32, marker: bool)
        -> RtpSenderView {
        RtpSenderView {
            header: self.next_header(secs, nanos, marker),
            cache: self.cache.recorded(
                Header::next_sequence_number(self.header.sequence_number),
                self.next_packet(payload, secs, nanos, marker),
                micros(secs, nanos),
            ),
            ..self
        }
    }

    /// Whether the oldest queued packet can be fetched into a buffer of
    /// `room` bytes.
    pub open spec fn fetchable(self, room: nat) -> bool {
        self.outbox.len() > 0 && self.outbox[0].len() <= room
    }

    /// What fetching into a buffer of `room` bytes returns: 0 with nothing
    /// queued, an error where the oldest packet does not fit, and its length
    /// otherwise.
    pub open spec fn poll_result(self, room: nat) -> Result<usize, CodecError> {
        if self.outbox.len() == 0 {
            Ok(0)
        } else if self.outbox[0].len() > room {
            Err(CodecError::BufferTooSmall)
        } else {
            Ok(self.outbox[0].len() as usize)
        }
    }

    /// The state after fetching: the packet that was fetched has left the
    /// queue.
    pub open spec fn polled(self, room: nat) -> RtpSenderView {
        if self.fetchable(room) {
            RtpSenderView { outbox: self.outbox.drop_first(), ..self }
        } else {
            self
        }
    }

    /// The buffer after fetching: the packet that was fetched lies at its
    /// start.
    pub open spec fn poll_output(self, buf: Seq<u8>) -> Seq<u8> {
        if self.fetchable(buf.len()) {
            overwrite(buf, 0, self.outbox[0])
        } else {
            buf
        }
    }

    /// The state after that packet has been sent and queued.
    pub open spec fn pushed(self, payload: Seq<u8>, secs: u64, nanos: u32, marker: bool)
        -> RtpSenderView {
        RtpSenderView {
            outbox: self.queued(self.next_packet(payload, secs, nanos, marker)),
            ..self.sent(payload, secs, nanos, marker)
        }
    }

    /// The queue with one more packet at its end. A full queue loses its
    /// oldest packet first.
    pub open spec fn queued(self, bytes: Seq<u8>) -> Seq<Seq<u8>> {
        if self.outbox.len() >= self.cache.capacity {
            self.outbox.drop_first().push(bytes)
        } else {
            self.outbox.push(bytes)
        }
    }
}

impl View for RtpSender {
    type V = RtpSenderView;

    closed spec fn view(&self) -> RtpSenderView {
        RtpSenderView {
            header: self.header,
            frequency: self.clock.frequency(),
            cache: self.cache@,
            outbox: payloads(self.outbox.entries()),
        }
    }
}

impl RtpSender {
    /// The state is well formed and the cache's bookkeeping is sound.
    pub closed spec fn well_formed(&self) -> bool {
        &&& self@.well_formed()
        &&& self.cache.well_formed()
        &&& self.outbox.well_formed()
        &&& self.outbox.limit() == self.cache@.capacity
    }

    /// A well-formed sender has a well-formed view.
    pub proof fn lemma_view_well_formed(&self)
        requires
            self.well_formed(),
        ensures
            self@.well_formed(),
    {
    }

    /// A builder with the default settings.
    pub fn new() -> (builder: Builder)
        ensures
            builder@ == (Settings {
                payload_type: DEFAULT_PAYLOAD_TYPE,
                clock_frequency: DEFAULT_CLOCK_FREQUENCY,
                buffer_size: DEFAULT_BUFFER_SIZE,
                max_retries: DEFAULT_MAX_RETRIES,
            }),
    {
        Builder::default()
    }

    /// The header of the packet sent last.
    pub fn header(&self) -> (h: Header)
        ensures
            h == self@.header,
    {
        self.header
    }

    /// Number of packets that wait for their first transmission.
    pub fn queued_len(&self) -> (n: usize)
        ensures
            n == self@.outbox.len(),
    {
        self.outbox.len()
    }

    /// The retransmission cache.
    pub fn cache(&self) -> (cache: &RetransmissionCache)
        ensures
            cache@ == self@.cache,
            self.well_formed() ==> cache.well_formed(),
    {
        &self.cache
    }

    /// Sends a packet at the instant `secs` seconds and `nanos` nanoseconds
    /// after the epoch: the header moves on to the next sequence number and
    /// to the timestamp of that instant, the packet is encoded and recorded
    /// in the cache, and its bytes are returned for the caller to transmit.
    pub fn send_at(&mut self, payload: Vec<u8>, secs: u64, nanos: u32, new_marker: bool) -> (bytes:
        Vec<u8>)
        requires
            old(self).well_formed(),
            payload@.len() + crate::rtp::header::HEADER_SIZE <= usize::MAX,
        ensures
            final(self).well_formed(),
            final(self)@ == old(self)@.sent(payload@, secs, nanos, new_marker),
            bytes@ == old(self)@.next_packet(payload@, secs, nanos, new_marker),
    {
        let timestamp: u32 = self.clock.timestamp_from_parts(secs, nanos);
        self.header.update(timestamp, new_marker);
        let packet = Packet::new(self.header, payload);
        let encoded = to_bytes(&packet);
        let bytes: Vec<u8> = match encoded {
            Ok(bytes) => bytes,
            Err(_) => Vec::new(),
        };
        let copy: Vec<u8> = slice_to_vec(bytes.as_slice());
        proof {
            lemma_recorded_well_formed(
                self.cache@,
                self.header.sequence_number,
                copy@,
                micros(secs, nanos),
            );
        }
        self.cache.record(self.header.sequence_number, copy, micros_from_parts(secs, nanos));
        bytes
    }

    /// Sends a packet at the instant that lies `now` after the epoch.
    pub fn send(&mut self, payload: Vec<u8>, now: Duration, new_marker: bool) -> (bytes: Vec<u8>)
        requires
            old(self).well_formed(),
            payload@.len() + crate::rtp::header::HEADER_SIZE <= usize::MAX,
        ensures
            final(self).well_formed(),
            final(self)@ == old(self)@.sent(
                payload@,
                duration_secs(now),
                duration_subsec_nanos(now),
                new_marker,
            ),
            bytes@ == old(self)@.next_packet(
                payload@,
                duration_secs(now),
                duration_subsec_nanos(now),
                new_marker,
            ),
    {
        self.send_at(payload, now.as_secs(), now.subsec_nanos(), new_marker)
    }

    /// Answers a generic NACK from the cache.
    pub fn answer_generic_nack(&mut self, nack: &GenericNack) -> (answers: Vec<
        (u16, RetransmitAction),
    >)
        requires
            old(self).well_formed(),
        ensures
            final(self).well_formed(),
            answer_views(answers@) == old(self)@.cache.answers(lost_of(nack@.fcis)),
            final(self)@ == (RtpSenderView {
                cache: old(self)@.cache.after_requests(lost_of(nack@.fcis)),
                ..old(self)@
            }),
    {
        proof {
            lemma_after_requests_well_formed(self.cache@, lost_of(nack@.fcis));
        }
        self.cache.handle_generic_nack(nack)
    }

    /// Answers a range-based NACK from the cache.
    pub fn answer_range_nack(&mut self, nack: &RangeBasedNACK) -> (answers: Vec<
        (u16, RetransmitAction),
    >)
        requires
            old(self).well_formed(),
        ensures
            final(self).well_formed(),
            answer_views(answers@) == old(self)@.cache.answers(
                lost_of_ranges(nack@.packet_ranges),
            ),
            final(self)@ == (RtpSenderView {
                cache: old(self)@.cache.after_requests(lost_of_ranges(nack@.packet_ranges)),
                ..old(self)@
            }),
    {
        proof {
            lemma_after_requests_well_formed(self.cache@, lost_of_ranges(nack@.packet_ranges));
        }
        self.cache.handle_range_nack(nack)
    }

    /// Sends a packet at the instant `secs` seconds and `nanos` nanoseconds
    /// after the epoch and queues its bytes until `poll_transmit` fetches
    /// them. A full queue loses its oldest packet.
    pub fn push_to_queue_at(&mut self, payload: Vec<u8>, secs: u64, nanos: u32, new_marker: bool)
        requires
            old(self).well_formed(),
            payload@.len() + crate::rtp::header::HEADER_SIZE <= usize::MAX,
        ensures
            final(self).well_formed(),
            final(self)@ == old(self)@.pushed(payload@, secs, nanos, new_marker),
    {
        let bytes = self.send_at(payload, secs, nanos, new_marker);
        let entry = CacheEntry {
            sequence_number: self.header.sequence_number,
            bytes,
            send_time: micros_from_parts(secs, nanos),
            retry_count: 0,
        };
        let ghost before = self@;
        proof {
            self.outbox.lemma_bounds();
        }
        self.outbox.push(entry);
        assert(self@.outbox =~= before.queued(entry@.bytes));
    }

    /// Sends a packet at the instant that lies `now` after the epoch and
    /// queues its bytes until `poll_transmit` fetches them.
    pub fn push_to_queue(&mut self, payload: Vec<u8>, now: Duration, new_marker: bool)
        requires
            old(self).well_formed(),
            payload@.len() + crate::rtp::header::HEADER_SIZE <= usize::MAX,
        ensures
            final(self).well_formed(),
            final(self)@ == old(self)@.pushed(
                payload@,
                duration_secs(now),
                duration_subsec_nanos(now),
                new_marker,
            ),
    {
        self.push_to_queue_at(payload, now.as_secs(), now.subsec_nanos(), new_marker)
    }

    /// Copies the oldest queued packet to the start of `send_buf` and returns
    /// its length. With nothing queued it returns 0. A packet that does not
    /// fit stays queued, and the buffer is left as it was.
    pub fn poll_transmit(&mut self, send_buf: &mut [u8], _now: Duration) -> (r: Result<
        usize,
        CodecError,
    >)
        requires
            old(self).well_formed(),
        ensures
            final(self).well_formed(),
            r == old(self)@.poll_result(old(send_buf)@.len()),
            final(self)@ == old(self)@.polled(old(send_buf)@.len()),
            final(send_buf)@ == old(self)@.poll_output(old(send_buf)@),
    {
        let size: usize = match self.outbox.get(0) {
            None => {
                return Ok(0);
            },
            Some(oldest) => {
                let size: usize = oldest.bytes.len();
                if size > send_buf.len() {
                    return Err(CodecError::BufferTooSmall);
                }
                put_bytes(send_buf, 0, oldest.bytes.as_slice());
                size
            },
        };
        let ghost before = self@;
        let _ = self.outbox.pop();
        assert(self@.outbox =~= before.outbox.drop_first());
        Ok(size)
    }
}

} // verus!
