//! The retransmission cache: the packets sent most recently, kept so that a
//! NACK can be answered.
use vstd::prelude::*;
use crate::error::ConfigError;
use crate::runtime::queue::{bumped, PacketRing};
use crate::runtime::ring::MAX_CAPACITY;

verus! {

/// A packet as it was sent, with what the cache knows of it.
#[derive(Debug, PartialEq, Eq)]
pub struct CacheEntry {
    /// The packet's RTP sequence number.
    pub sequence_number: u16,
    /// The packet as it went out.
    pub bytes: Vec<u8>,
    /// When it went out, in the caller's units.
    pub send_time: u64,
    /// How often it has been handed out again.
    pub retry_count: u32,
}

/// What an entry is, apart from how its bytes are stored.
pub struct CacheEntryView {
    pub sequence_number: u16,
    pub bytes: Seq<u8>,
    pub send_time: u64,
    pub retry_count: u32,
}

impl View for CacheEntry {
    type V = CacheEntryView;

    open spec fn view(&self) -> CacheEntryView {
        CacheEntryView {
            sequence_number: self.sequence_number,
            bytes: self.bytes@,
            send_time: self.send_time,
            retry_count: self.retry_count,
        }
    }
}

/// What the cache answers to a request for one packet.
#[derive(Debug, PartialEq, Eq)]
pub enum RetransmitAction {
    /// Send these bytes again.
    Resend(Vec<u8>),
    /// The packet is not in the cache: it has aged out, or was never sent.
    NotCached,
    /// The packet is in the cache but has been handed out as often as the
    /// cache allows.
    RetryBudgetExhausted,
}

/// What such an answer is, apart from how the bytes are stored.
pub enum RetransmitActionView {
    Resend(Seq<u8>),
    NotCached,
    RetryBudgetExhausted,
}

impl View for RetransmitAction {
    type V = RetransmitActionView;

    open spec fn view(&self) -> RetransmitActionView {
        match self {
            RetransmitAction::Resend(bytes) => RetransmitActionView::Resend(bytes@),
            RetransmitAction::NotCached => RetransmitActionView::NotCached,
            RetransmitAction::RetryBudgetExhausted => RetransmitActionView::RetryBudgetExhausted,
        }
    }
}

/// The views of a list of answers, each with the sequence number asked for.
pub open spec fn answer_views(answers: Seq<(u16, RetransmitAction)>) -> Seq<
    (u16, RetransmitActionView),
> {
    Seq::new(answers.len(), |i: int| (answers[i].0, answers[i].1@))
}

/// The entries are in the order of their send times, the earliest first.
pub open spec fn oldest_first(entries: Seq<CacheEntryView>) -> bool {
    forall|i: int, j: int|
        0 <= i <= j < entries.len() ==> entries[i].send_time <= entries[j].send_time
}

/// The cache as a list of entries, the one recorded longest ago first.
pub struct CacheView {
    pub entries: Seq<CacheEntryView>,
    pub capacity: nat,
    pub max_retries: u32,
}

/// Whether `entries[i]` is the entry of sequence number `sequence_number`.
pub open spec fn holds_at(entries: Seq<CacheEntryView>, i: int, sequence_number: u16) -> bool {
    0 <= i < entries.len() && entries[i].sequence_number == sequence_number
}

/// The place of the entry of that sequence number, if there is one.
pub open spec fn position(entries: Seq<CacheEntryView>, sequence_number: u16) -> Option<int> {
    if exists|i: int| holds_at(entries, i, sequence_number) {
        Some(choose|i: int| holds_at(entries, i, sequence_number))
    } else {
        None
    }
}

/// No two entries have the same sequence number.
pub open spec fn distinct(entries: Seq<CacheEntryView>) -> bool {
    forall|i: int, j: int|
        0 <= i < entries.len() && 0 <= j < entries.len() && i != j ==> entries[i].sequence_number
            != entries[j].sequence_number
}

impl CacheView {
    /// At most `capacity` entries, at least one place, and no sequence number
    /// twice.
    pub open spec fn well_formed(self) -> bool {
        &&& 0 < self.capacity <= MAX_CAPACITY
        &&& self.entries.len() <= self.capacity
        &&& distinct(self.entries)
    }

    /// The entries that are left when room has been made for one of
    /// `sequence_number`: an entry of that number goes, and else, where the
    /// cache is full, the oldest entry.
    pub open spec fn room_for(self, sequence_number: u16) -> Seq<CacheEntryView> {
        match position(self.entries, sequence_number) {
            Some(i) => self.entries.remove(i),
            None => if self.entries.len() == self.capacity {
                self.entries.drop_first()
            } else {
                self.entries
            },
        }
    }

    /// The entry at place `i` with one more retry counted, the count staying
    /// where it is once it has reached the end of its range.
    pub open spec fn bumped(self, i: int) -> CacheEntryView {
        bumped(self.entries[i])
    }

    /// The cache after the entry at place `i` has been handed out once more.
    pub open spec fn retried(self, i: int) -> CacheView {
        CacheView { entries: self.entries.update(i, self.bumped(i)), ..self }
    }

    /// The answer to a request for the packet of `sequence_number`: a miss
    /// where the cache does not hold it, a refusal where it has been handed
    /// out `max_retries` times, and its bytes otherwise.
    pub open spec fn answer(self, sequence_number: u16) -> RetransmitActionView {
        match position(self.entries, sequence_number) {
            None => RetransmitActionView::NotCached,
            Some(i) => if self.entries[i].retry_count >= self.max_retries {
                RetransmitActionView::RetryBudgetExhausted
            } else {
                RetransmitActionView::Resend(self.entries[i].bytes)
            },
        }
    }

    /// The cache after that request: one more retry is counted where the
    /// bytes were handed out, and nothing changes otherwise.
    pub open spec fn after_request(self, sequence_number: u16) -> CacheView {
        match position(self.entries, sequence_number) {
            None => self,
            Some(i) => if self.entries[i].retry_count >= self.max_retries {
                self
            } else {
                self.retried(i)
            },
        }
    }

    /// The cache after a list of requests, made one after the other.
    pub open spec fn after_requests(self, requested: Seq<u16>) -> CacheView
        decreases requested.len(),
    {
        if requested.len() == 0 {
            self
        } else {
            self.after_requests(requested.drop_last()).after_request(requested.last())
        }
    }

    /// The answers to a list of requests, made one after the other: each
    /// request is answered by the cache as the requests before it left it.
    pub open spec fn answers(self, requested: Seq<u16>) -> Seq<(u16, RetransmitActionView)>
        decreases requested.len(),
    {
        if requested.len() == 0 {
            Seq::empty()
        } else {
            self.answers(requested.drop_last()).push(
                (
                    requested.last(),
                    self.after_requests(requested.drop_last()).answer(requested.last()),
                ),
            )
        }
    }

    /// The cache after a packet has been recorded: room is made, and the new
    /// entry, not yet retried, goes to the end.
    pub open spec fn recorded(self, sequence_number: u16, bytes: Seq<u8>, send_time: u64)
        -> CacheView {
        CacheView {
            entries: self.room_for(sequence_number).push(
                CacheEntryView { sequence_number, bytes, send_time, retry_count: 0 },
            ),
            ..self
        }
    }
}

/// A bounded store of sent packets, found again by sequence number.
///
/// Beside the ring of entries the cache keeps one flag for each sequence
/// number, set while a packet of that number is held. A packet of a number
/// that is not held, which is the common case, is recorded without a search.
pub struct RetransmissionCache {
    ring: PacketRing,
    max_retries: u32,
    present: Vec<bool>,
}

/// Number of sequence numbers.
pub const SEQUENCE_NUMBERS: usize = 65536;

/// The views of a list of entries.
pub open spec fn entry_views(entries: Seq<CacheEntry>) -> Seq<CacheEntryView> {
    Seq::new(entries.len(), |i: int| entries[i]@)
}

impl View for RetransmissionCache {
    type V = CacheView;

    closed spec fn view(&self) -> CacheView {
        CacheView {
            entries: self.ring.entries(),
            capacity: self.ring.limit(),
            max_retries: self.max_retries,
        }
    }
}

impl RetransmissionCache {
    /// The cache's view is well formed, and so are its queue and its flags.
    pub closed spec fn well_formed(&self) -> bool {
        &&& self@.well_formed()
        &&& self.ring.well_formed()
        &&& self.flags_agree()
    }

    /// The flag of each sequence number says whether a packet of that number
    /// is held.
    spec fn flags_agree(&self) -> bool {
        &&& self.present@.len() == SEQUENCE_NUMBERS
        &&& forall|s: u16| #[trigger]
            self.present@[s as int] == position(self@.entries, s).is_some()
    }

    /// One flag for each sequence number, none of them set.
    fn no_flags() -> (flags: Vec<bool>)
        ensures
            flags@.len() == SEQUENCE_NUMBERS,
            forall|i: int| 0 <= i < flags@.len() ==> !flags@[i],
    {
        let mut flags: Vec<bool> = Vec::new();
        let mut i: usize = 0;
        while i < SEQUENCE_NUMBERS
            invariant
                i <= SEQUENCE_NUMBERS,
                flags@.len() == i,
                forall|j: int| 0 <= j < flags@.len() ==> !flags@[j],
            decreases SEQUENCE_NUMBERS - i,
        {
            flags.push(false);
            i = i + 1;
        }
        flags
    }

    /// An empty cache for up to `capacity` packets, each of which is handed
    /// out again at most `max_retries` times. A capacity of zero, or one that
    /// the machine cannot hold, is refused.
    pub fn new(capacity: usize, max_retries: u32) -> (r: Result<RetransmissionCache, ConfigError>)
        ensures
            capacity == 0 || capacity > MAX_CAPACITY ==> r == Err::<
                RetransmissionCache,
                ConfigError,
            >(ConfigError::InvalidBufferSize),
            0 < capacity <= MAX_CAPACITY ==> r is Ok && r->Ok_0.well_formed() && r->Ok_0@ == (
            CacheView { entries: Seq::empty(), capacity: capacity as nat, max_retries }),
    {
        match PacketRing::new(capacity) {
            Err(e) => Err(e),
            Ok(ring) => {
                let present = RetransmissionCache::no_flags();
                Ok(RetransmissionCache { ring, max_retries, present })
            },
        }
    }

    /// Number of packets held.
    pub fn len(&self) -> (n: usize)
        ensures
            n == self@.entries.len(),
    {
        self.ring.len()
    }

    /// Number of packets that the cache holds at most.
    pub fn capacity(&self) -> (n: usize)
        ensures
            n == self@.capacity,
    {
        self.ring.capacity()
    }

    /// Number of times that one packet is handed out again at most.
    pub fn max_retries(&self) -> (n: u32)
        ensures
            n == self@.max_retries,
    {
        self.max_retries
    }

    /// The entry at place `i`, counted from the one recorded longest ago, if
    /// the cache holds that many.
    pub fn entry(&self, i: usize) -> (entry: Option<&CacheEntry>)
        ensures
            i < self@.entries.len() ==> entry.is_some() && entry.unwrap()@ == self@.entries[i as int],
            i >= self@.entries.len() ==> entry.is_none(),
    {
        self.ring.get(i)
    }

    /// The place of the entry of `sequence_number`, counted from the oldest.
    pub fn find(&self, sequence_number: u16) -> (place: Option<usize>)
        requires
            self.well_formed(),
        ensures
            match place {
                Some(i) => position(self@.entries, sequence_number) == Some(i as int),
                None => position(self@.entries, sequence_number).is_none(),
            },
    {
        if !self.present[sequence_number as usize] {
            return None;
        }
        let n: usize = self.ring.len();
        let mut i: usize = 0;
        while i < n
            invariant
                i <= n,
                n == self@.entries.len(),
                distinct(self@.entries),
                forall|j: int| 0 <= j < i ==> !holds_at(self@.entries, j, sequence_number),
            decreases n - i,
        {
            let number: Option<u16> = match self.ring.get(i) {
                Some(entry) => Some(entry.sequence_number),
                None => None,
            };
            if number == Some(sequence_number) {
                proof {
                    assert(holds_at(self@.entries, i as int, sequence_number));
                    let c = choose|k: int| holds_at(self@.entries, k, sequence_number);
                    assert(holds_at(self@.entries, c, sequence_number));
                    assert(c == i);
                }
                return Some(i);
            }
            i = i + 1;
        }
        None
    }

    /// Records a packet that has just been sent. An entry of the same
    /// sequence number is replaced; else, where the cache is full, the entry
    /// recorded longest ago makes room. The new entry is the newest.
    pub fn record(&mut self, sequence_number: u16, bytes: Vec<u8>, send_time: u64)
        requires
            old(self).well_formed(),
        ensures
            final(self).well_formed(),
            final(self)@ == old(self)@.recorded(sequence_number, bytes@, send_time),
    {
        let ghost before = self@.entries;
        let ghost flags = self.present@;
        proof {
            self.ring.lemma_bounds();
        }
        let known: bool = self.present[sequence_number as usize];
        if known {
            match self.find(sequence_number) {
                Some(i) => {
                    self.ring.remove(i);
                },
                None => {},
            }
        } else if self.ring.len() == self.ring.capacity() {
            let oldest: Option<u16> = match self.ring.get(0) {
                Some(entry) => Some(entry.sequence_number),
                None => None,
            };
            match oldest {
                Some(number) => {
                    self.present.set(number as usize, false);
                },
                None => {},
            }
        }
        let entry = CacheEntry { sequence_number, bytes, send_time, retry_count: 0 };
        self.ring.push(entry);
        self.present.set(sequence_number as usize, true);
        proof {
            let room = old(self)@.room_for(sequence_number);
            let fresh = CacheEntryView { sequence_number, bytes: bytes@, send_time, retry_count: 0 };
            assert(self@.entries =~= room.push(fresh));
            lemma_recorded_well_formed(old(self)@, sequence_number, bytes@, send_time);
            lemma_recorded_holds(old(self)@, sequence_number, bytes@, send_time);
            assert forall|s: u16| #[trigger]
                self.present@[s as int] == position(self@.entries, s).is_some() by {
                assert(flags[s as int] == position(before, s).is_some());
            }
        }
    }

    /// Answers a request for the packet of `sequence_number`. The bytes are
    /// handed out, and the retry counted, unless the cache does not hold the
    /// packet or has handed it out `max_retries` times already.
    pub fn retransmit(&mut self, sequence_number: u16) -> (action: RetransmitAction)
        requires
            old(self).well_formed(),
        ensures
            final(self).well_formed(),
            action@ == old(self)@.answer(sequence_number),
            final(self)@ == old(self)@.after_request(sequence_number),
    {
        match self.find(sequence_number) {
            None => RetransmitAction::NotCached,
            Some(i) => {
                let retries: u32 = match self.ring.get(i) {
                    Some(entry) => entry.retry_count,
                    None => u32::MAX,
                };
                if retries >= self.max_retries {
                    RetransmitAction::RetryBudgetExhausted
                } else {
                    let bytes = self.ring.retry(i);
                    proof {
                        assert(self@.entries =~= old(self)@.retried(i as int).entries);
                        lemma_retried_holds(old(self)@, i as int);
                    }
                    RetransmitAction::Resend(bytes)
                }
            },
        }
    }

    /// Answers a list of requests, one after the other.
    pub fn retransmit_all(&mut self, requested: &Vec<u16>) -> (answers: Vec<
        (u16, RetransmitAction),
    >)
        requires
            old(self).well_formed(),
        ensures
            final(self).well_formed(),
            answer_views(answers@) == old(self)@.answers(requested@),
            final(self)@ == old(self)@.after_requests(requested@),
    {
        let mut answers: Vec<(u16, RetransmitAction)> = Vec::new();
        let n: usize = requested.len();
        let mut k: usize = 0;
        assert(requested@.take(0) =~= Seq::<u16>::empty());
        assert(answer_views(answers@) =~= Seq::empty());
        while k < n
            invariant
                k <= n,
                n == requested@.len(),
                self.well_formed(),
                answer_views(answers@) == old(self)@.answers(requested@.take(k as int)),
                self@ == old(self)@.after_requests(requested@.take(k as int)),
            decreases n - k,
        {
            let sequence_number: u16 = requested[k];
            let ghost before = answer_views(answers@);
            let action = self.retransmit(sequence_number);
            answers.push((sequence_number, action));
            k = k + 1;
            proof {
                assert(requested@.take(k as int).drop_last() =~= requested@.take(k - 1));
                assert(answer_views(answers@) =~= before.push((sequence_number, action@)));
            }
        }
        assert(requested@.take(n as int) =~= requested@);
        answers
    }

    /// Answers a generic NACK: every lost packet that it names, in the
    /// order of its entries, is looked up and either handed out for sending
    /// again, reported as no longer cached, or reported as out of retries.
    pub fn handle_generic_nack(&mut self, nack: &crate::rtcp::feedback::nack::GenericNack) -> (answers:
        Vec<(u16, RetransmitAction)>)
        requires
            old(self).well_formed(),
        ensures
            final(self).well_formed(),
            answer_views(answers@) == old(self)@.answers(
                crate::rtcp::feedback::nack::lost_of(nack@.fcis),
            ),
            final(self)@ == old(self)@.after_requests(
                crate::rtcp::feedback::nack::lost_of(nack@.fcis),
            ),
    {
        let requested = nack.lost_sequence_numbers();
        self.retransmit_all(&requested)
    }

    /// Answers a range-based NACK in the same way, range after range.
    pub fn handle_range_nack(&mut self, nack: &crate::rtcp::feedback::rist::RangeBasedNACK) -> (answers:
        Vec<(u16, RetransmitAction)>)
        requires
            old(self).well_formed(),
        ensures
            final(self).well_formed(),
            answer_views(answers@) == old(self)@.answers(
                crate::rtcp::feedback::rist::lost_of_ranges(nack@.packet_ranges),
            ),
            final(self)@ == old(self)@.after_requests(
                crate::rtcp::feedback::rist::lost_of_ranges(nack@.packet_ranges),
            ),
    {
        let requested = nack.lost_sequence_numbers();
        self.retransmit_all(&requested)
    }

    /// Hands out the bytes of the packet of `sequence_number` for sending
    /// again, and counts the retry. A packet that the cache does not hold
    /// gives `None` and changes nothing.
    pub fn lookup_for_retransmit(&mut self, sequence_number: u16) -> (bytes: Option<Vec<u8>>)
        requires
            old(self).well_formed(),
        ensures
            final(self).well_formed(),
            match position(old(self)@.entries, sequence_number) {
                Some(i) => bytes matches Some(b) && b@ == old(self)@.entries[i].bytes
                    && final(self)@ == old(self)@.retried(i),
                None => bytes.is_none() && final(self)@ == old(self)@,
            },
    {
        match self.find(sequence_number) {
            None => None,
            Some(i) => {
                let bytes = self.ring.retry(i);
                proof {
                    assert(self@.entries =~= old(self)@.retried(i as int).entries);
                    lemma_retried_holds(old(self)@, i as int);
                }
                Some(bytes)
            },
        }
    }
}

/// Recording a packet in a well-formed cache leaves the cache well formed: it
/// still holds no more than its capacity and no sequence number twice.
pub proof fn lemma_recorded_well_formed(
    cache: CacheView,
    sequence_number: u16,
    bytes: Seq<u8>,
    send_time: u64,
)
    requires
        cache.well_formed(),
    ensures
        cache.recorded(sequence_number, bytes, send_time).well_formed(),
        forall|k: int|
            0 <= k < cache.room_for(sequence_number).len() ==> cache.room_for(
                sequence_number,
            )[k].sequence_number != sequence_number,
{
    let old_entries = cache.entries;
    let room = cache.room_for(sequence_number);
    let after = cache.recorded(sequence_number, bytes, send_time).entries;
    // Every entry that stays comes from a place of its own in the old list.
    let shift = match position(old_entries, sequence_number) {
        Some(i) => i,
        None => if old_entries.len() == cache.capacity {
            0
        } else {
            old_entries.len() as int
        },
    };
    assert forall|k: int| 0 <= k < room.len() implies #[trigger] room[k] == old_entries[if k
        < shift {
        k
    } else {
        k + 1
    }] by {}
    assert forall|k: int| 0 <= k < room.len() implies room[k].sequence_number
        != sequence_number by {
        let from = if k < shift {
            k
        } else {
            k + 1
        };
        assert(room[k] == old_entries[from]);
        if room[k].sequence_number == sequence_number {
            assert(holds_at(old_entries, from, sequence_number));
            let c = choose|c: int| holds_at(old_entries, c, sequence_number);
            assert(holds_at(old_entries, c, sequence_number));
            assert(c == from);
        }
    }
    assert forall|a: int, b: int|
        0 <= a < after.len() && 0 <= b < after.len() && a != b implies after[a].sequence_number
        != after[b].sequence_number by {
        if a < room.len() && b < room.len() {
            let from_a = if a < shift {
                a
            } else {
                a + 1
            };
            let from_b = if b < shift {
                b
            } else {
                b + 1
            };
            assert(room[a] == old_entries[from_a]);
            assert(room[b] == old_entries[from_b]);
        } else if a < room.len() {
            assert(room[a].sequence_number != sequence_number);
        } else if b < room.len() {
            assert(room[b].sequence_number != sequence_number);
        }
    }
}

/// Counting a retry moves no packet: every sequence number is held where it
/// was held before.
pub proof fn lemma_retried_holds(cache: CacheView, i: int)
    requires
        0 <= i < cache.entries.len(),
    ensures
        forall|s: u16|
            #[trigger] position(cache.retried(i).entries, s).is_some() == position(
                cache.entries,
                s,
            ).is_some(),
{
    let after = cache.retried(i).entries;
    assert forall|s: u16|
        #[trigger] position(after, s).is_some() == position(cache.entries, s).is_some() by {
        if position(after, s).is_some() {
            let at = choose|at: int| holds_at(after, at, s);
            assert(holds_at(after, at, s));
            assert(holds_at(cache.entries, at, s));
        }
        if position(cache.entries, s).is_some() {
            let at = choose|at: int| holds_at(cache.entries, at, s);
            assert(holds_at(cache.entries, at, s));
            assert(holds_at(after, at, s));
        }
    }
}

/// Which sequence numbers a cache holds after a packet has been recorded:
/// that of the packet, and those that it held before, but for the number of
/// the entry that made room.
pub proof fn lemma_recorded_holds(
    cache: CacheView,
    sequence_number: u16,
    bytes: Seq<u8>,
    send_time: u64,
)
    requires
        cache.well_formed(),
    ensures
        forall|s: u16|
            #[trigger] position(
                cache.recorded(sequence_number, bytes, send_time).entries,
                s,
            ).is_some() <==> s == sequence_number || (position(cache.entries, s).is_some() && !(
            position(cache.entries, sequence_number).is_none() && cache.entries.len()
                == cache.capacity && s == cache.entries[0].sequence_number)),
{
    let old_entries = cache.entries;
    let room = cache.room_for(sequence_number);
    let after = cache.recorded(sequence_number, bytes, send_time).entries;
    let shift = match position(old_entries, sequence_number) {
        Some(i) => i,
        None => if old_entries.len() == cache.capacity {
            0
        } else {
            old_entries.len() as int
        },
    };
    assert forall|k: int| 0 <= k < room.len() implies #[trigger] room[k] == old_entries[if k
        < shift {
        k
    } else {
        k + 1
    }] by {}
    assert forall|s: u16|
        #[trigger] position(after, s).is_some() <==> s == sequence_number || (position(
            old_entries,
            s,
        ).is_some() && !(position(old_entries, sequence_number).is_none() && old_entries.len()
            == cache.capacity && s == old_entries[0].sequence_number)) by {
        let dropped = position(old_entries, sequence_number).is_none() && old_entries.len()
            == cache.capacity && s == old_entries[0].sequence_number;
        if position(after, s).is_some() {
            let at = choose|at: int| holds_at(after, at, s);
            assert(holds_at(after, at, s));
            if at < room.len() {
                let from = if at < shift {
                    at
                } else {
                    at + 1
                };
                assert(room[at] == old_entries[from]);
                assert(holds_at(old_entries, from, s));
                if dropped {
                    assert(from != 0);
                    assert(old_entries[from].sequence_number != old_entries[0].sequence_number);
                }
            }
        }
        if s == sequence_number {
            assert(holds_at(after, after.len() - 1, s));
        } else if position(old_entries, s).is_some() && !dropped {
            let from = choose|from: int| holds_at(old_entries, from, s);
            assert(holds_at(old_entries, from, s));
            if position(old_entries, sequence_number).is_some() {
                assert(holds_at(old_entries, shift, sequence_number));
                assert(from != shift);
            } else if old_entries.len() == cache.capacity {
                assert(from != 0);
            }
            let at = if from < shift {
                from
            } else {
                from - 1
            };
            assert(room[at] == old_entries[from]);
            assert(holds_at(after, at, s));
        }
    }
}

/// Answering requests leaves a well-formed cache well formed, with the same
/// packets at the same places: only retries are counted.
pub proof fn lemma_after_requests_well_formed(cache: CacheView, requested: Seq<u16>)
    requires
        cache.well_formed(),
    ensures
        cache.after_requests(requested).well_formed(),
        cache.after_requests(requested).capacity == cache.capacity,
        cache.after_requests(requested).max_retries == cache.max_retries,
        cache.after_requests(requested).entries.len() == cache.entries.len(),
        forall|i: int|
            0 <= i < cache.entries.len() ==> {
                &&& (#[trigger] cache.after_requests(requested).entries[i]).sequence_number
                    == cache.entries[i].sequence_number
                &&& cache.after_requests(requested).entries[i].bytes == cache.entries[i].bytes
                &&& cache.after_requests(requested).entries[i].send_time
                    == cache.entries[i].send_time
            },
    decreases requested.len(),
{
    if requested.len() > 0 {
        lemma_after_requests_well_formed(cache, requested.drop_last());
    }
}

/// A full cache that records a packet of a new sequence number drops the
/// entry recorded longest ago and no other: a request for the dropped packet
/// is a miss, every other entry moves up one place, and the new entry is the
/// last.
pub proof fn lemma_full_cache_evicts_oldest(
    cache: CacheView,
    sequence_number: u16,
    bytes: Seq<u8>,
    send_time: u64,
)
    requires
        cache.well_formed(),
        cache.entries.len() == cache.capacity,
        position(cache.entries, sequence_number).is_none(),
    ensures
        cache.recorded(sequence_number, bytes, send_time).entries == cache.entries.drop_first().push(
            CacheEntryView { sequence_number, bytes, send_time, retry_count: 0 },
        ),
        position(
            cache.recorded(sequence_number, bytes, send_time).entries,
            cache.entries[0].sequence_number,
        ).is_none(),
        cache.recorded(sequence_number, bytes, send_time).answer(cache.entries[0].sequence_number)
            == RetransmitActionView::NotCached,
        forall|k: int|
            1 <= k < cache.entries.len() ==> position(
                cache.recorded(sequence_number, bytes, send_time).entries,
                #[trigger] cache.entries[k].sequence_number,
            ) == Some(k - 1),
{
    let after = cache.recorded(sequence_number, bytes, send_time).entries;
    let gone = cache.entries[0].sequence_number;
    lemma_recorded_well_formed(cache, sequence_number, bytes, send_time);
    assert(!holds_at(cache.entries, 0, sequence_number));
    assert forall|i: int| !holds_at(after, i, gone) by {
        if 0 <= i < after.len() - 1 {
            assert(after[i] == cache.entries[i + 1]);
        }
    }
    assert forall|k: int| 1 <= k < cache.entries.len() implies position(
        after,
        #[trigger] cache.entries[k].sequence_number,
    ) == Some(k - 1) by {
        let wanted = cache.entries[k].sequence_number;
        assert(after[k - 1] == cache.entries[k]);
        assert(holds_at(after, k - 1, wanted));
        let c = choose|c: int| holds_at(after, c, wanted);
        assert(holds_at(after, c, wanted));
        assert(c == k - 1);
    }
}

/// A packet to record: its sequence number, its bytes and its send time.
pub struct Recording {
    pub sequence_number: u16,
    pub bytes: Seq<u8>,
    pub send_time: u64,
}

impl Recording {
    /// The entry that the packet makes when it is recorded.
    pub open spec fn entry(self) -> CacheEntryView {
        CacheEntryView {
            sequence_number: self.sequence_number,
            bytes: self.bytes,
            send_time: self.send_time,
            retry_count: 0,
        }
    }
}

/// The entries that a list of packets makes.
pub open spec fn entries_of(packets: Seq<Recording>) -> Seq<CacheEntryView> {
    Seq::new(packets.len(), |i: int| packets[i].entry())
}

impl CacheView {
    /// The cache after a list of packets has been recorded, one after the
    /// other.
    pub open spec fn recorded_all(self, packets: Seq<Recording>) -> CacheView
        decreases packets.len(),
    {
        if packets.len() == 0 {
            self
        } else {
            self.recorded_all(packets.drop_last()).recorded(
                packets.last().sequence_number,
                packets.last().bytes,
                packets.last().send_time,
            )
        }
    }
}

/// An empty cache that records packets of distinct sequence numbers holds the
/// newest of them, as many as it has room for, in the order in which they
/// were recorded. One packet more than the capacity therefore drops the
/// first packet and no other.
pub proof fn lemma_cache_holds_the_newest(cache: CacheView, packets: Seq<Recording>)
    requires
        cache.well_formed(),
        cache.entries.len() == 0,
        forall|i: int, j: int|
            0 <= i < packets.len() && 0 <= j < packets.len() && i != j
                ==> packets[i].sequence_number != packets[j].sequence_number,
    ensures
        cache.recorded_all(packets).well_formed(),
        cache.recorded_all(packets).capacity == cache.capacity,
        cache.recorded_all(packets).max_retries == cache.max_retries,
        cache.recorded_all(packets).entries == entries_of(packets).skip(
            if packets.len() > cache.capacity {
                packets.len() - cache.capacity
            } else {
                0
            },
        ),
    decreases packets.len(),
{
    let n = packets.len() as int;
    let cap = cache.capacity as int;
    if n == 0 {
        assert(cache.entries =~= entries_of(packets).skip(0));
    } else {
        let before = packets.drop_last();
        let last = packets.last();
        lemma_cache_holds_the_newest(cache, before);
        let held = cache.recorded_all(before);
        let skipped = if n - 1 > cap {
            n - 1 - cap
        } else {
            0
        };
        assert forall|i: int| 0 <= i < held.entries.len() implies !holds_at(
            held.entries,
            i,
            last.sequence_number,
        ) by {
            assert(held.entries[i] == entries_of(before)[i + skipped]);
            assert(before[i + skipped] == packets[i + skipped]);
        }
        assert(position(held.entries, last.sequence_number).is_none());
        lemma_recorded_well_formed(held, last.sequence_number, last.bytes, last.send_time);
        let after = held.recorded(last.sequence_number, last.bytes, last.send_time);
        let now_skipped = if n > cap {
            n - cap
        } else {
            0
        };
        assert forall|k: int| 0 <= k < before.len() implies entries_of(before)[k] == entries_of(
            packets,
        )[k] by {
            assert(before[k] == packets[k]);
        }
        assert(after.entries =~= entries_of(packets).skip(now_skipped));
    }
}

/// Where the entries lie in the order of their send times, and the packet
/// recorded is sent no earlier than any of them, they still lie in that order
/// afterwards. The entry that a full cache drops is then the one sent
/// earliest.
pub proof fn lemma_recorded_keeps_order(
    cache: CacheView,
    sequence_number: u16,
    bytes: Seq<u8>,
    send_time: u64,
)
    requires
        cache.well_formed(),
        oldest_first(cache.entries),
        forall|k: int| 0 <= k < cache.entries.len() ==> cache.entries[k].send_time <= send_time,
    ensures
        oldest_first(cache.recorded(sequence_number, bytes, send_time).entries),
        forall|k: int|
            0 <= k < cache.entries.len() ==> cache.entries[0].send_time
                <= #[trigger] cache.entries[k].send_time,
{
    let room = cache.room_for(sequence_number);
    let after = cache.recorded(sequence_number, bytes, send_time).entries;
    let shift = match position(cache.entries, sequence_number) {
        Some(i) => i,
        None => if cache.entries.len() == cache.capacity {
            0
        } else {
            cache.entries.len() as int
        },
    };
    assert forall|k: int| 0 <= k < room.len() implies #[trigger] room[k] == cache.entries[if k
        < shift {
        k
    } else {
        k + 1
    }] by {}
    assert forall|i: int, j: int| 0 <= i <= j < after.len() implies after[i].send_time
        <= after[j].send_time by {
        if i < room.len() {
            assert(room[i] == cache.entries[if i < shift {
                i
            } else {
                i + 1
            }]);
        }
        if j < room.len() {
            assert(room[j] == cache.entries[if j < shift {
                j
            } else {
                j + 1
            }]);
        }
    }
}

} // verus!
