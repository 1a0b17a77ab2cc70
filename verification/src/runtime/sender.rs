//! The sender core: outgoing media packets one way, the receiver's feedback
//! the other.
use std::time::Duration;
use vstd::prelude::*;
use crate::clock::system::{duration_secs, duration_subsec_nanos};
use crate::clock::wall::{micros, micros_since_epoch};
use crate::error::{BuildError, ClockError, CodecError, ConfigError, EntropyError};
use crate::rtcp::compound::{
    decode_compound, parse_compound, views, Decoded, DecodedView, RtcpPacket, RtcpPacketView,
};
use crate::rtcp::feedback::nack::lost_of;
use crate::rtcp::feedback::rist::{lost_of_ranges, RttEcho};
use crate::rtcp::feedback::Subtype;
use crate::rtcp::header::PacketType;
use crate::runtime::cache::{
    answer_views, lemma_after_requests_well_formed, RetransmitAction, RetransmitActionView,
};
use crate::runtime::rtp_sender::{Builder, RtpSender, RtpSenderView, RtpTransmit};
use crate::runtime::rtt::{RttEstimator, RttView};

verus! {

/// What handling one packet of feedback led to.
#[derive(Debug, PartialEq, Eq)]
pub enum FeedbackEvent {
    /// A NACK was answered: for each packet that it named, in its order,
    /// what the cache had to say.
    Retransmissions(Vec<(u16, RetransmitAction)>),
    /// An echo response was handled: the round-trip time, where the response
    /// answered a pending request.
    RoundTrip(Option<u64>),
    /// The peer asks for an echo. The caller answers when it is ready to.
    EchoRequested(RttEcho),
    /// A report or a source description arrived. The sender has no use for
    /// it.
    Report(PacketType),
    /// A packet of an unknown type or subtype was stepped over.
    Ignored { packet_type: u8, packet_specific: u8 },
}

/// What such an event is, apart from how lists are stored.
pub enum FeedbackEventView {
    Retransmissions(Seq<(u16, RetransmitActionView)>),
    RoundTrip(Option<u64>),
    EchoRequested(RttEcho),
    Report(PacketType),
    Ignored { packet_type: u8, packet_specific: u8 },
}

impl View for FeedbackEvent {
    type V = FeedbackEventView;

    open spec fn view(&self) -> FeedbackEventView {
        match self {
            FeedbackEvent::Retransmissions(answers) => FeedbackEventView::Retransmissions(
                answer_views(answers@),
            ),
            FeedbackEvent::RoundTrip(rtt) => FeedbackEventView::RoundTrip(*rtt),
            FeedbackEvent::EchoRequested(echo) => FeedbackEventView::EchoRequested(*echo),
            FeedbackEvent::Report(kind) => FeedbackEventView::Report(*kind),
            FeedbackEvent::Ignored { packet_type, packet_specific } => FeedbackEventView::Ignored {
                packet_type: *packet_type,
                packet_specific: *packet_specific,
            },
        }
    }
}

/// The views of a list of events.
pub open spec fn event_views(events: Seq<FeedbackEvent>) -> Seq<FeedbackEventView> {
    Seq::new(events.len(), |i: int| events[i]@)
}

/// The bytes to send again that a list of answers holds, in its order.
pub open spec fn resends(answers: Seq<(u16, RetransmitActionView)>) -> Seq<Seq<u8>>
    decreases answers.len(),
{
    if answers.len() == 0 {
        Seq::empty()
    } else {
        match answers.last().1 {
            RetransmitActionView::Resend(bytes) => resends(answers.drop_last()).push(bytes),
            _ => resends(answers.drop_last()),
        }
    }
}

/// The buffers that a list of events asks the caller to transmit: the
/// packets to send again, in the order of the events and of the answers in
/// each.
pub open spec fn outbound(events: Seq<FeedbackEventView>) -> Seq<Seq<u8>>
    decreases events.len(),
{
    if events.len() == 0 {
        Seq::empty()
    } else {
        match events.last() {
            FeedbackEventView::Retransmissions(answers) => outbound(events.drop_last()) + resends(
                answers,
            ),
            _ => outbound(events.drop_last()),
        }
    }
}

/// The byte sequences of a list of buffers.
pub open spec fn buffer_views(buffers: Seq<Vec<u8>>) -> Seq<Seq<u8>> {
    Seq::new(buffers.len(), |i: int| buffers[i]@)
}

/// The buffers that a list of events asks the caller to transmit.
pub fn outbound_buffers(events: &Vec<FeedbackEvent>) -> (buffers: Vec<Vec<u8>>)
    ensures
        buffer_views(buffers@) == outbound(event_views(events@)),
{
    let mut buffers: Vec<Vec<u8>> = Vec::new();
    let n: usize = events.len();
    let mut k: usize = 0;
    let ghost all = event_views(events@);
    assert(all.take(0) =~= Seq::<FeedbackEventView>::empty());
    assert(buffer_views(buffers@) =~= Seq::empty());
    while k < n
        invariant
            k <= n,
            n == events@.len(),
            all == event_views(events@),
            buffer_views(buffers@) == outbound(all.take(k as int)),
        decreases n - k,
    {
        let ghost before = outbound(all.take(k as int));
        proof {
            assert(all.take(k + 1).drop_last() =~= all.take(k as int));
            assert(all.take(k + 1).last() == events@[k as int]@);
        }
        match &events[k] {
            FeedbackEvent::Retransmissions(answers) => {
                let m: usize = answers.len();
                let mut j: usize = 0;
                let ghost given = answer_views(answers@);
                assert(given.take(0) =~= Seq::<(u16, RetransmitActionView)>::empty());
                assert(before + resends(given.take(0)) =~= before);
                while j < m
                    invariant
                        j <= m,
                        m == answers@.len(),
                        given == answer_views(answers@),
                        buffer_views(buffers@) == before + resends(given.take(j as int)),
                    decreases m - j,
                {
                    let ghost sofar = buffer_views(buffers@);
                    proof {
                        assert(given.take(j + 1).drop_last() =~= given.take(j as int));
                        assert(given.take(j + 1).last() == (answers@[j as int].0, answers@[j as int].1@));
                    }
                    match &answers[j].1 {
                        RetransmitAction::Resend(bytes) => {
                            let copy: Vec<u8> = vstd::slice::slice_to_vec(bytes.as_slice());
                            buffers.push(copy);
                            assert(buffer_views(buffers@) =~= sofar.push(bytes@));
                            assert(before + resends(given.take(j as int)).push(bytes@) =~= (before
                                + resends(given.take(j as int))).push(bytes@));
                        },
                        _ => {},
                    }
                    j = j + 1;
                }
                assert(given.take(m as int) =~= given);
            },
            _ => {},
        }
        k = k + 1;
    }
    assert(all.take(n as int) =~= all);
    buffers
}

/// What a sender is made from.
#[derive(Debug)]
pub struct SenderConfig {
    /// The settings of the RTP sender.
    pub rtp: Builder,
    /// How many echo requests may wait for their response.
    pub rtt_max_pending: usize,
    /// How long an echo request waits for its response, in microseconds.
    pub rtt_timeout: u64,
    /// Address of the receiver.
    pub remote_sockaddr: String,
}

impl SenderConfig {
    /// What is wrong with the configuration, if anything: the settings of the
    /// RTP sender first, a table of echo requests without room second.
    pub open spec fn fault(&self) -> Option<ConfigError> {
        match self.rtp@.fault() {
            Some(e) => Some(e),
            None => if self.rtt_max_pending == 0 {
                Some(ConfigError::InvalidPendingLimit)
            } else {
                None
            },
        }
    }
}

/// The sender of one session.
pub struct Sender {
    rtp_sender: RtpSender,
    rtt: RttEstimator,
    remote_sockaddr: String,
}

/// What the sender's state is, apart from how it is stored.
pub struct SenderView {
    pub rtp: RtpSenderView,
    pub rtt: RttView,
    pub remote_sockaddr: Seq<char>,
}

impl SenderView {
    /// Both halves are well formed.
    pub open spec fn well_formed(self) -> bool {
        self.rtp.well_formed() && self.rtt.well_formed()
    }

    /// The state after one decoded packet has been handled at the time
    /// `now`: a NACK counts retries in the cache, an echo response may
    /// settle a pending request, and nothing else changes anything.
    pub open spec fn after_item(self, item: DecodedView, now: u64) -> SenderView {
        match item {
            DecodedView::Packet(RtcpPacketView::GenericNack(nack)) => SenderView {
                rtp: RtpSenderView {
                    cache: self.rtp.cache.after_requests(lost_of(nack.fcis)),
                    ..self.rtp
                },
                ..self
            },
            DecodedView::Packet(RtcpPacketView::RangeBasedNack(nack)) => SenderView {
                rtp: RtpSenderView {
                    cache: self.rtp.cache.after_requests(lost_of_ranges(nack.packet_ranges)),
                    ..self.rtp
                },
                ..self
            },
            DecodedView::Packet(RtcpPacketView::RttEcho(echo)) => SenderView {
                rtt: self.rtt.after_response(echo, now),
                ..self
            },
            _ => self,
        }
    }

    /// What handling that packet reports.
    pub open spec fn event_of(self, item: DecodedView, now: u64) -> FeedbackEventView {
        match item {
            DecodedView::Packet(RtcpPacketView::GenericNack(nack)) => {
                FeedbackEventView::Retransmissions(self.rtp.cache.answers(lost_of(nack.fcis)))
            },
            DecodedView::Packet(RtcpPacketView::RangeBasedNack(nack)) => {
                FeedbackEventView::Retransmissions(
                    self.rtp.cache.answers(lost_of_ranges(nack.packet_ranges)),
                )
            },
            DecodedView::Packet(RtcpPacketView::RttEcho(echo)) => if echo.subtype
                == Subtype::EchoResponse {
                FeedbackEventView::RoundTrip(
                    match self.rtt.measured(echo, now) {
                        Some((_, rtt)) => Some(rtt),
                        None => None,
                    },
                )
            } else {
                FeedbackEventView::EchoRequested(echo)
            },
            DecodedView::Packet(RtcpPacketView::SenderReport(_)) => FeedbackEventView::Report(
                PacketType::SenderReport,
            ),
            DecodedView::Packet(RtcpPacketView::ReceiverReport(_)) => FeedbackEventView::Report(
                PacketType::ReceiverReport,
            ),
            DecodedView::Packet(RtcpPacketView::Sdes(_)) => FeedbackEventView::Report(
                PacketType::Sdes,
            ),
            DecodedView::Ignored { packet_type, packet_specific } => FeedbackEventView::Ignored {
                packet_type,
                packet_specific,
            },
        }
    }

    /// The state after a list of decoded packets has been handled, one after
    /// the other.
    pub open spec fn after_items(self, items: Seq<DecodedView>, now: u64) -> SenderView
        decreases items.len(),
    {
        if items.len() == 0 {
            self
        } else {
            self.after_items(items.drop_last(), now).after_item(items.last(), now)
        }
    }

    /// What handling them reports: one event for each packet, each from the
    /// state that the packets before it left.
    pub open spec fn events_of(self, items: Seq<DecodedView>, now: u64) -> Seq<FeedbackEventView>
        decreases items.len(),
    {
        if items.len() == 0 {
            Seq::empty()
        } else {
            self.events_of(items.drop_last(), now).push(
                self.after_items(items.drop_last(), now).event_of(items.last(), now),
            )
        }
    }
}

impl View for Sender {
    type V = SenderView;

    closed spec fn view(&self) -> SenderView {
        SenderView {
            rtp: self.rtp_sender@,
            rtt: self.rtt@,
            remote_sockaddr: self.remote_sockaddr@,
        }
    }
}

impl Sender {
    /// Both halves are well formed.
    pub closed spec fn well_formed(&self) -> bool {
        self.rtp_sender.well_formed() && self.rtt@.well_formed() && self@.well_formed()
    }

    /// A sender around an RTP sender and an estimator that have been built
    /// already.
    pub fn with_rtp_sender(rtp_sender: RtpSender, rtt: RttEstimator, remote_sockaddr: String) -> (sender:
        Sender)
        requires
            rtp_sender.well_formed(),
            rtt@.well_formed(),
        ensures
            sender.well_formed(),
            sender@ == (SenderView {
                rtp: rtp_sender@,
                rtt: rtt@,
                remote_sockaddr: remote_sockaddr@,
            }),
    {
        proof {
            rtp_sender.lemma_view_well_formed();
        }
        Sender { rtp_sender, rtt, remote_sockaddr }
    }

    /// Builds a sender from its configuration. A configuration at fault is
    /// refused before the clock is read. The RTP sender reads the clock and
    /// draws its identifiers at random, so of a sender that comes back it is
    /// known that its RTP half starts at the timestamp of some duration at
    /// the configured rate; the rest is as configured.
    pub fn new(config: SenderConfig) -> (r: Result<Sender, BuildError>)
        ensures
            match config.fault() {
                Some(e) => r is Err && r->Err_0 == BuildError::Config(e),
                None => match r {
                    Ok(sender) => sender.well_formed() && sender@.remote_sockaddr
                        == config.remote_sockaddr@ && sender@.rtt == (RttView {
                        pending: Seq::empty(),
                        max_pending: config.rtt_max_pending as nat,
                        timeout: config.rtt_timeout,
                        last_rtt: None,
                    }) && exists|now: Duration, sequence_number: u16, ssrc: u32|
                        sender@.rtp == #[trigger] config.rtp@.started(now, sequence_number, ssrc),
                    Err(e) => e == BuildError::Clock(ClockError::SystemClockBeforeEpoch) || e
                        == BuildError::Entropy(EntropyError::Unavailable),
                },
            },
    {
        match config.rtp.check() {
            Some(e) => {
                return Err(BuildError::Config(e));
            },
            None => {},
        }
        let rtt = match RttEstimator::new(config.rtt_max_pending, config.rtt_timeout) {
            Err(e) => {
                return Err(BuildError::Config(e));
            },
            Ok(rtt) => rtt,
        };
        match config.rtp.build() {
            Err(e) => Err(e),
            Ok(rtp_sender) => Ok(Sender::with_rtp_sender(rtp_sender, rtt, config.remote_sockaddr)),
        }
    }

    /// The RTP half of the sender.
    pub fn rtp_sender(&self) -> (rtp: &RtpSender)
        ensures
            rtp@ == self@.rtp,
    {
        &self.rtp_sender
    }

    /// The round-trip time measured last, if any has been measured.
    pub fn last_rtt(&self) -> (rtt: Option<u64>)
        ensures
            rtt == self@.rtt.last_rtt,
    {
        self.rtt.last_rtt()
    }

    /// Sends a media packet at the instant `secs` seconds and `nanos`
    /// nanoseconds after the epoch: the bytes to transmit, and where to.
    pub fn push_at(&mut self, payload: Vec<u8>, secs: u64, nanos: u32, marker: bool) -> (out: (
        Vec<u8>,
        RtpTransmit,
    ))
        requires
            old(self).well_formed(),
            payload@.len() + crate::rtp::header::HEADER_SIZE <= usize::MAX,
        ensures
            final(self).well_formed(),
            final(self)@ == (SenderView {
                rtp: old(self)@.rtp.sent(payload@, secs, nanos, marker),
                ..old(self)@
            }),
            out.0@ == old(self)@.rtp.next_packet(payload@, secs, nanos, marker),
            out.1.remote_sockaddr@ == old(self)@.remote_sockaddr,
            out.1.buf_size == out.0@.len(),
    {
        let bytes = self.rtp_sender.send_at(payload, secs, nanos, marker);
        proof {
            self.rtp_sender.lemma_view_well_formed();
        }
        let transmit = RtpTransmit {
            remote_sockaddr: self.remote_sockaddr.clone(),
            buf_size: bytes.len(),
        };
        (bytes, transmit)
    }

    /// Sends a media packet at the instant that lies `now` after the epoch.
    pub fn push(&mut self, payload: Vec<u8>, now: Duration, marker: bool) -> (out: (
        Vec<u8>,
        RtpTransmit,
    ))
        requires
            old(self).well_formed(),
            payload@.len() + crate::rtp::header::HEADER_SIZE <= usize::MAX,
        ensures
            final(self).well_formed(),
            final(self)@ == (SenderView {
                rtp: old(self)@.rtp.sent(
                    payload@,
                    duration_secs(now),
                    duration_subsec_nanos(now),
                    marker,
                ),
                ..old(self)@
            }),
            out.0@ == old(self)@.rtp.next_packet(
                payload@,
                duration_secs(now),
                duration_subsec_nanos(now),
                marker,
            ),
            out.1.remote_sockaddr@ == old(self)@.remote_sockaddr,
            out.1.buf_size == out.0@.len(),
    {
        self.push_at(payload, now.as_secs(), now.subsec_nanos(), marker)
    }

    /// Builds an echo request about the sender's own source, stamped with
    /// the time `at` in microseconds, and remembers it.
    pub fn send_echo_request_at(&mut self, padding_size: u32, at: u64) -> (echo: RttEcho)
        requires
            old(self).well_formed(),
        ensures
            final(self).well_formed(),
            echo == (RttEcho {
                subtype: Subtype::EchoRequest,
                ssrc: old(self)@.rtp.header.ssrc,
                timestamp: at,
                processing_delay: 0,
                padding_size,
            }),
            final(self)@ == (SenderView {
                rtt: old(self)@.rtt.after_request(old(self)@.rtp.header.ssrc, at),
                ..old(self)@
            }),
    {
        let ssrc: u32 = self.rtp_sender.header().ssrc;
        self.rtt.send_echo_request(ssrc, padding_size, at)
    }

    /// Builds an echo request about the sender's own source, stamped with
    /// the microseconds of `now`, and remembers it.
    pub fn send_echo_request(&mut self, padding_size: u32, now: Duration) -> (echo: RttEcho)
        requires
            old(self).well_formed(),
        ensures
            final(self).well_formed(),
            echo == (RttEcho {
                subtype: Subtype::EchoRequest,
                ssrc: old(self)@.rtp.header.ssrc,
                timestamp: micros(duration_secs(now), duration_subsec_nanos(now)),
                processing_delay: 0,
                padding_size,
            }),
            final(self)@ == (SenderView {
                rtt: old(self)@.rtt.after_request(
                    old(self)@.rtp.header.ssrc,
                    micros(duration_secs(now), duration_subsec_nanos(now)),
                ),
                ..old(self)@
            }),
    {
        self.send_echo_request_at(padding_size, micros_since_epoch(now))
    }

    /// Handles one decoded packet.
    fn handle_item(&mut self, item: &Decoded, now: u64) -> (event: FeedbackEvent)
        requires
            old(self).well_formed(),
        ensures
            final(self).well_formed(),
            final(self)@ == old(self)@.after_item(item@, now),
            event@ == old(self)@.event_of(item@, now),
    {
        match item {
            Decoded::Packet(RtcpPacket::GenericNack(nack)) => {
                let answers = self.rtp_sender.answer_generic_nack(nack);
                proof {
                    self.rtp_sender.lemma_view_well_formed();
                }
                FeedbackEvent::Retransmissions(answers)
            },
            Decoded::Packet(RtcpPacket::RangeBasedNack(nack)) => {
                let answers = self.rtp_sender.answer_range_nack(nack);
                proof {
                    self.rtp_sender.lemma_view_well_formed();
                }
                FeedbackEvent::Retransmissions(answers)
            },
            Decoded::Packet(RtcpPacket::RttEcho(echo)) => {
                match echo.subtype {
                    Subtype::EchoResponse => {
                        let rtt = self.rtt.handle_echo_response(echo, now);
                        FeedbackEvent::RoundTrip(rtt)
                    },
                    _ => FeedbackEvent::EchoRequested(*echo),
                }
            },
            Decoded::Packet(RtcpPacket::SenderReport(_)) => FeedbackEvent::Report(
                PacketType::SenderReport,
            ),
            Decoded::Packet(RtcpPacket::ReceiverReport(_)) => FeedbackEvent::Report(
                PacketType::ReceiverReport,
            ),
            Decoded::Packet(RtcpPacket::Sdes(_)) => FeedbackEvent::Report(PacketType::Sdes),
            Decoded::Ignored { packet_type, packet_specific } => FeedbackEvent::Ignored {
                packet_type: *packet_type,
                packet_specific: *packet_specific,
            },
        }
    }

    /// What handling a datagram at the time `at`, in microseconds, returns.
    pub open spec fn inbound_result(
        state: SenderView,
        bytes: Seq<u8>,
        at: u64,
        r: Result<Vec<FeedbackEvent>, CodecError>,
    ) -> bool {
        match parse_compound(bytes) {
            Err(e) => r == Err::<Vec<FeedbackEvent>, CodecError>(e),
            Ok(items) => r is Ok && event_views(r->Ok_0@) == state.events_of(items, at),
        }
    }

    /// The state after a datagram has been handled at the time `at`, in
    /// microseconds: as it was where the datagram has a fault, and as its
    /// packets leave it otherwise.
    pub open spec fn inbound_state(state: SenderView, bytes: Seq<u8>, at: u64) -> SenderView {
        match parse_compound(bytes) {
            Err(_) => state,
            Ok(items) => state.after_items(items, at),
        }
    }

    /// Handles a datagram of feedback that arrived at the time `at`, in
    /// microseconds.
    ///
    /// The datagram is decoded as a whole first. If it has a fault, the fault
    /// is returned and nothing has changed. Else each packet is handled in
    /// its order and one event is reported for it: the answers of the cache
    /// to a NACK, the round-trip time behind an echo response, a request for
    /// an echo, a report that was passed on, or a packet that was ignored.
    pub fn handle_inbound_rtcp_at(&mut self, bytes: &[u8], at: u64) -> (r: Result<
        Vec<FeedbackEvent>,
        CodecError,
    >)
        requires
            old(self).well_formed(),
        ensures
            final(self).well_formed(),
            Sender::inbound_result(old(self)@, bytes@, at, r),
            final(self)@ == Sender::inbound_state(old(self)@, bytes@, at),
    {
        let items: Vec<Decoded> = match decode_compound(bytes) {
            Err(e) => {
                return Err(e);
            },
            Ok(items) => items,
        };
        let ghost decoded = views(items@);
        let mut events: Vec<FeedbackEvent> = Vec::new();
        let n: usize = items.len();
        let mut k: usize = 0;
        assert(decoded.take(0) =~= Seq::<DecodedView>::empty());
        assert(event_views(events@) =~= Seq::empty());
        while k < n
            invariant
                k <= n,
                n == items@.len(),
                decoded == views(items@),
                self.well_formed(),
                self@ == old(self)@.after_items(decoded.take(k as int), at),
                event_views(events@) == old(self)@.events_of(decoded.take(k as int), at),
            decreases n - k,
        {
            let ghost before = event_views(events@);
            let event = self.handle_item(&items[k], at);
            events.push(event);
            k = k + 1;
            proof {
                assert(decoded.take(k as int).drop_last() =~= decoded.take(k - 1));
                assert(decoded.take(k as int).last() == items@[k - 1]@);
                assert(event_views(events@) =~= before.push(event@));
            }
        }
        assert(decoded.take(n as int) =~= decoded);
        Ok(events)
    }

    /// Handles a datagram of feedback that arrived at the instant that lies
    /// `now` after the epoch.
    pub fn handle_inbound_rtcp(&mut self, bytes: &[u8], now: Duration) -> (r: Result<
        Vec<FeedbackEvent>,
        CodecError,
    >)
        requires
            old(self).well_formed(),
        ensures
            final(self).well_formed(),
            Sender::inbound_result(
                old(self)@,
                bytes@,
                micros(duration_secs(now), duration_subsec_nanos(now)),
                r,
            ),
            final(self)@ == Sender::inbound_state(
                old(self)@,
                bytes@,
                micros(duration_secs(now), duration_subsec_nanos(now)),
            ),
    {
        self.handle_inbound_rtcp_at(bytes, micros_since_epoch(now))
    }
}

} // verus!
