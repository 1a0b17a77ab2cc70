//! The round-trip estimator: echo requests sent, echo responses matched, and
//! the time between the two.
use vstd::prelude::*;
use crate::error::ConfigError;
use crate::rtcp::feedback::rist::RttEcho;
use crate::rtcp::feedback::Subtype;

verus! {

/// A request that has gone out and has not been answered yet.
#[derive(Clone, Copy, Debug, PartialEq, Eq, Structural)]
pub struct PendingRequest {
    /// The media source that the probe was about.
    pub ssrc: u32,
    /// The value that the response must echo.
    pub timestamp: u64,
    /// When the request went out.
    pub sent_at: u64,
}

/// Whether a request has waited longer than `timeout` at the time `now`.
pub open spec fn expired(request: PendingRequest, now: u64, timeout: u64) -> bool {
    now >= request.sent_at && now - request.sent_at > timeout
}

/// The test that a request passes while it has not expired.
pub open spec fn alive(now: u64, timeout: u64) -> spec_fn(PendingRequest) -> bool {
    |request: PendingRequest| !expired(request, now, timeout)
}

/// Whether `pending[i]` is the first request that carries `timestamp`.
pub open spec fn first_match(pending: Seq<PendingRequest>, i: int, timestamp: u64) -> bool {
    &&& 0 <= i < pending.len()
    &&& pending[i].timestamp == timestamp
    &&& forall|j: int| 0 <= j < i ==> pending[j].timestamp != timestamp
}

/// The place of the first request that carries `timestamp`, if there is one.
pub open spec fn matching(pending: Seq<PendingRequest>, timestamp: u64) -> Option<int> {
    if exists|i: int| first_match(pending, i, timestamp) {
        Some(choose|i: int| first_match(pending, i, timestamp))
    } else {
        None
    }
}

/// The estimator as a list of pending requests, the oldest first.
pub struct RttView {
    pub pending: Seq<PendingRequest>,
    pub max_pending: nat,
    pub timeout: u64,
    pub last_rtt: Option<u64>,
}

impl RttView {
    /// The table has room for at least one request, no more requests are
    /// pending than it has room for, and each carries the time at which it
    /// was sent.
    pub open spec fn well_formed(self) -> bool {
        &&& 0 < self.max_pending
        &&& self.pending.len() <= self.max_pending
        &&& forall|i: int|
            0 <= i < self.pending.len() ==> (#[trigger] self.pending[i]).timestamp
                == self.pending[i].sent_at
    }

    /// The requests that have not expired at the time `now`, in their order.
    pub open spec fn live(self, now: u64) -> Seq<PendingRequest> {
        self.pending.filter(alive(now, self.timeout))
    }

    /// The estimator after a request has been sent at the time `now`:
    /// expired requests go, the oldest goes too where the table is still
    /// full, and the new request is the last.
    pub open spec fn after_request(self, ssrc: u32, now: u64) -> RttView {
        let live = self.live(now);
        let room = if live.len() >= self.max_pending {
            live.drop_first()
        } else {
            live
        };
        RttView {
            pending: room.push(PendingRequest { ssrc, timestamp: now, sent_at: now }),
            ..self
        }
    }

    /// The request that a response answers, and the round-trip time that
    /// follows: the time from sending to `received_at`, less the delay that
    /// the peer reports.
    ///
    /// There is none where the message is no response, where no pending
    /// request carries its timestamp, where that request has expired, or
    /// where the delay reported is longer than the time that has passed.
    pub open spec fn measured(self, echo: RttEcho, received_at: u64) -> Option<(int, u64)> {
        if echo.subtype != Subtype::EchoResponse {
            None
        } else {
            match matching(self.pending, echo.timestamp) {
                None => None,
                Some(i) => {
                    let sent_at = self.pending[i].sent_at;
                    if received_at < sent_at || received_at - sent_at > self.timeout
                        || received_at - sent_at < echo.processing_delay {
                        None
                    } else {
                        Some((i, (received_at - sent_at - echo.processing_delay) as u64))
                    }
                },
            }
        }
    }

    /// The estimator after a response has been handled: a request that was
    /// answered leaves the table and its round-trip time is kept; a response
    /// that answers nothing changes nothing.
    pub open spec fn after_response(self, echo: RttEcho, received_at: u64) -> RttView {
        match self.measured(echo, received_at) {
            Some((i, rtt)) => RttView {
                pending: self.pending.remove(i),
                last_rtt: Some(rtt),
                ..self
            },
            None => self,
        }
    }
}

/// Measures round-trip times by RTT echo messages.
pub struct RttEstimator {
    pending: Vec<PendingRequest>,
    max_pending: usize,
    timeout: u64,
    last_rtt: Option<u64>,
}

impl View for RttEstimator {
    type V = RttView;

    closed spec fn view(&self) -> RttView {
        RttView {
            pending: self.pending@,
            max_pending: self.max_pending as nat,
            timeout: self.timeout,
            last_rtt: self.last_rtt,
        }
    }
}

impl RttEstimator {
    /// An estimator that remembers up to `max_pending` unanswered requests,
    /// each for no longer than `timeout`. A table without room for a single
    /// request is refused.
    pub fn new(max_pending: usize, timeout: u64) -> (r: Result<RttEstimator, ConfigError>)
        ensures
            max_pending == 0 ==> r is Err && r->Err_0 == ConfigError::InvalidPendingLimit,
            max_pending > 0 ==> r is Ok && r->Ok_0@.well_formed() && r->Ok_0@ == (RttView {
                pending: Seq::empty(),
                max_pending: max_pending as nat,
                timeout,
                last_rtt: None,
            }),
    {
        if max_pending == 0 {
            return Err(ConfigError::InvalidPendingLimit);
        }
        Ok(RttEstimator { pending: Vec::new(), max_pending, timeout, last_rtt: None })
    }

    /// The round-trip time measured last, if any has been measured.
    pub fn last_rtt(&self) -> (rtt: Option<u64>)
        ensures
            rtt == self@.last_rtt,
    {
        self.last_rtt
    }

    /// Number of requests that wait for their response.
    pub fn pending_len(&self) -> (n: usize)
        ensures
            n == self@.pending.len(),
    {
        self.pending.len()
    }

    /// Drops the requests that have expired at the time `now`.
    fn expire(&mut self, now: u64)
        requires
            old(self)@.well_formed(),
        ensures
            final(self)@ == (RttView { pending: old(self)@.live(now), ..old(self)@ }),
            final(self)@.well_formed(),
    {
        let mut kept: Vec<PendingRequest> = Vec::new();
        let n: usize = self.pending.len();
        let mut k: usize = 0;
        proof {
            reveal(Seq::filter);
            assert(self.pending@.take(0) =~= Seq::<PendingRequest>::empty());
        }
        while k < n
            invariant
                k <= n,
                n == self.pending@.len(),
                *self == *old(self),
                kept@ == self.pending@.take(k as int).filter(alive(now, self.timeout)),
                kept@.len() <= k,
                forall|j: int|
                    0 <= j < kept@.len() ==> (#[trigger] kept@[j]).timestamp == kept@[j].sent_at,
                old(self)@.well_formed(),
            decreases n - k,
        {
            let request = self.pending[k];
            let stale: bool = now >= request.sent_at && now - request.sent_at > self.timeout;
            proof {
                reveal(Seq::filter);
                assert(self.pending@.take(k + 1).drop_last() =~= self.pending@.take(k as int));
                assert(self.pending@[k as int].timestamp == self.pending@[k as int].sent_at);
            }
            if !stale {
                kept.push(request);
            }
            k = k + 1;
        }
        assert(self.pending@.take(n as int) =~= self.pending@);
        self.pending = kept;
    }

    /// Builds an echo request that carries `now` as the value to be echoed,
    /// and remembers it until its response arrives or it expires.
    pub fn send_echo_request(&mut self, ssrc: u32, padding_size: u32, now: u64) -> (echo: RttEcho)
        requires
            old(self)@.well_formed(),
        ensures
            echo == (RttEcho {
                subtype: Subtype::EchoRequest,
                ssrc,
                timestamp: now,
                processing_delay: 0,
                padding_size,
            }),
            final(self)@ == old(self)@.after_request(ssrc, now),
            final(self)@.well_formed(),
            final(self)@.pending.len() > 0,
            final(self)@.pending.last() == (PendingRequest { ssrc, timestamp: now, sent_at: now }),
    {
        self.expire(now);
        if self.pending.len() >= self.max_pending {
            let _ = self.pending.remove(0);
        }
        self.pending.push(PendingRequest { ssrc, timestamp: now, sent_at: now });
        assert(self@.pending =~= old(self)@.after_request(ssrc, now).pending);
        RttEcho::new_request(ssrc, padding_size, now)
    }

    /// Handles an echo response that arrived at the time `received_at`.
    ///
    /// Where it answers a pending request, the round-trip time is the time
    /// since that request was sent, less the peer's processing delay; it is
    /// returned and kept, and the request leaves the table. A response that
    /// answers nothing is dropped and nothing changes.
    pub fn handle_echo_response(&mut self, echo: &RttEcho, received_at: u64) -> (rtt: Option<u64>)
        requires
            old(self)@.well_formed(),
        ensures
            final(self)@ == old(self)@.after_response(*echo, received_at),
            final(self)@.well_formed(),
            match old(self)@.measured(*echo, received_at) {
                Some((_, value)) => rtt == Some(value),
                None => rtt.is_none(),
            },
    {
        match echo.subtype {
            Subtype::EchoResponse => {},
            _ => {
                return None;
            },
        }
        let n: usize = self.pending.len();
        let mut k: usize = 0;
        while k < n
            invariant
                k <= n,
                n == self.pending@.len(),
                *self == *old(self),
                forall|j: int| 0 <= j < k ==> self.pending@[j].timestamp != echo.timestamp,
            ensures
                k < n ==> self.pending@[k as int].timestamp == echo.timestamp,
            decreases n - k,
        {
            if self.pending[k].timestamp == echo.timestamp {
                break;
            }
            k = k + 1;
        }
        if k == n {
            assert forall|i: int| !first_match(self.pending@, i, echo.timestamp) by {}
            return None;
        }
        proof {
            assert(first_match(self.pending@, k as int, echo.timestamp));
            let c = choose|c: int| first_match(self.pending@, c, echo.timestamp);
            assert(first_match(self.pending@, c, echo.timestamp));
            assert(c == k);
        }
        let sent_at: u64 = self.pending[k].sent_at;
        if received_at < sent_at || received_at - sent_at > self.timeout || received_at - sent_at
            < echo.processing_delay {
            return None;
        }
        let value: u64 = received_at - sent_at - echo.processing_delay;
        let _ = self.pending.remove(k);
        self.last_rtt = Some(value);
        Some(value)
    }

    /// Builds the response to an echo request that arrived at `received_at`
    /// and is answered at `processing_finished_at`: timestamp, source and
    /// padding are those of the request, and the processing delay is the
    /// time between the two instants, or zero where the second is not later.
    pub fn handle_echo_request(echo: &RttEcho, received_at: u64, processing_finished_at: u64) -> (response:
        RttEcho)
        ensures
            response == (RttEcho {
                subtype: Subtype::EchoResponse,
                ssrc: echo.ssrc,
                timestamp: echo.timestamp,
                processing_delay: if processing_finished_at >= received_at {
                    (processing_finished_at - received_at) as u64
                } else {
                    0
                },
                padding_size: echo.padding_size,
            }),
    {
        let delay: u64 = if processing_finished_at >= received_at {
            processing_finished_at - received_at
        } else {
            0
        };
        RttEcho::new_response(echo.ssrc, echo.timestamp, delay, echo.padding_size)
    }
}

/// Every request that is still live was pending before.
pub proof fn lemma_live_were_pending(pending: Seq<PendingRequest>, now: u64, timeout: u64)
    ensures
        pending.filter(alive(now, timeout)).len() <= pending.len(),
        forall|j: int|
            0 <= j < pending.filter(alive(now, timeout)).len() ==> pending.contains(
                #[trigger] pending.filter(alive(now, timeout))[j],
            ),
    decreases pending.len(),
{
    reveal(Seq::filter);
    if pending.len() > 0 {
        let shorter = pending.drop_last();
        lemma_live_were_pending(shorter, now, timeout);
        let live = pending.filter(alive(now, timeout));
        assert forall|j: int| 0 <= j < live.len() implies pending.contains(#[trigger] live[j]) by {
            let before = shorter.filter(alive(now, timeout));
            if j < before.len() {
                assert(live[j] == before[j]);
                assert(shorter.contains(before[j]));
                let at = choose|at: int| 0 <= at < shorter.len() && shorter[at] == before[j];
                assert(pending[at] == live[j]);
            } else {
                assert(live[j] == pending.last());
                assert(pending[pending.len() - 1] == live[j]);
            }
        }
    }
}

/// Sending a request leaves a well-formed estimator well formed.
pub proof fn lemma_after_request_well_formed(estimator: RttView, ssrc: u32, now: u64)
    requires
        estimator.well_formed(),
    ensures
        estimator.after_request(ssrc, now).well_formed(),
{
    lemma_live_were_pending(estimator.pending, now, estimator.timeout);
    let live = estimator.live(now);
    let after = estimator.after_request(ssrc, now).pending;
    assert forall|i: int| 0 <= i < live.len() implies (#[trigger] live[i]).timestamp
        == live[i].sent_at by {
        assert(estimator.pending.contains(live[i]));
        let at = choose|at: int| 0 <= at < estimator.pending.len() && estimator.pending[at]
            == live[i];
        assert(estimator.pending[at].timestamp == estimator.pending[at].sent_at);
    }
    assert forall|i: int| 0 <= i < after.len() implies (#[trigger] after[i]).timestamp
        == after[i].sent_at by {
        if i < after.len() - 1 {
            if live.len() >= estimator.max_pending {
                assert(after[i] == live[i + 1]);
            } else {
                assert(after[i] == live[i]);
            }
        }
    }
}

/// A request that has just been sent is pending: it is the newest entry of
/// the table, with the time of sending as its timestamp, and a response that
/// echoes that timestamp finds a request to answer.
pub proof fn lemma_request_is_pending(estimator: RttView, ssrc: u32, now: u64)
    requires
        estimator.well_formed(),
    ensures
        estimator.after_request(ssrc, now).well_formed(),
        estimator.after_request(ssrc, now).pending.len() > 0,
        estimator.after_request(ssrc, now).pending.last() == (PendingRequest {
            ssrc,
            timestamp: now,
            sent_at: now,
        }),
        matching(estimator.after_request(ssrc, now).pending, now).is_some(),
{
    lemma_after_request_well_formed(estimator, ssrc, now);
    let after = estimator.after_request(ssrc, now).pending;
    lemma_first_match_exists(after, after.len() - 1, now);
}

/// A request sent at the time `now` and answered by a response that echoes
/// its timestamp, reports a processing delay of `delay` and arrives at
/// `received_at`, before the request expires, gives the round-trip time
/// `received_at - now - delay`.
pub proof fn lemma_response_measures_rtt(
    estimator: RttView,
    ssrc: u32,
    now: u64,
    response: RttEcho,
    received_at: u64,
)
    requires
        estimator.well_formed(),
        response.subtype == Subtype::EchoResponse,
        response.timestamp == now,
        now <= received_at,
        received_at - now <= estimator.timeout,
        response.processing_delay <= received_at - now,
    ensures
        estimator.after_request(ssrc, now).measured(response, received_at) matches Some((_, rtt))
            && rtt == received_at - now - response.processing_delay,
{
    lemma_after_request_well_formed(estimator, ssrc, now);
    let after = estimator.after_request(ssrc, now);
    let last = after.pending.len() - 1;
    assert(after.pending[last].timestamp == now);
    lemma_first_match_exists(after.pending, last, now);
    let i = choose|i: int| first_match(after.pending, i, now);
    assert(first_match(after.pending, i, now));
    assert(after.pending[i].timestamp == after.pending[i].sent_at);
}

/// Where some request carries a timestamp, there is a first that does.
pub proof fn lemma_first_match_exists(pending: Seq<PendingRequest>, at: int, timestamp: u64)
    requires
        0 <= at < pending.len(),
        pending[at].timestamp == timestamp,
    ensures
        exists|i: int| first_match(pending, i, timestamp),
    decreases at,
{
    if forall|j: int| 0 <= j < at ==> pending[j].timestamp != timestamp {
        assert(first_match(pending, at, timestamp));
    } else {
        let j = choose|j: int| 0 <= j < at && pending[j].timestamp == timestamp;
        lemma_first_match_exists(pending, j, timestamp);
    }
}

} // verus!
