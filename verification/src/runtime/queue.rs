//! A bounded queue of packets on a ring buffer: the oldest packet leaves when
//! a new one arrives at a full queue.
//!
//! The retransmission cache keeps its entries in one, and the sender its
//! packets that wait for their first transmission in another.
use ringbuffer::AllocRingBuffer;
use vstd::prelude::*;
use vstd::slice::slice_to_vec;
use crate::error::ConfigError;
use crate::runtime::cache::{entry_views, CacheEntry, CacheEntryView};
use crate::runtime::ring::{
    ring_capacity, ring_dequeue, ring_entries, ring_get, ring_get_mut, ring_len, ring_new,
    ring_push, ring_pushes, MAX_CAPACITY,
};

verus! {

/// After this many pushes the ring is replaced by a fresh one, so that its
/// own count of pushes never reaches the end of `usize`.
pub const PUSH_LIMIT: usize = usize::MAX / 2;

/// The limits leave room: a queue that has just been renewed is under the
/// limit of pushes, and a queue at that limit can take out an entry and add
/// one without its count of pushes reaching the end of `usize`.
pub proof fn lemma_limits()
    ensures
        MAX_CAPACITY <= PUSH_LIMIT,
        PUSH_LIMIT + MAX_CAPACITY < usize::MAX,
{
    assert(usize::MAX >= 0xffff_ffff);
    assert(PUSH_LIMIT == usize::MAX / 2);
    assert(MAX_CAPACITY == usize::MAX / 256);
}

/// The entries of a queue of `limit` places after `entry` has arrived: a full
/// queue loses its oldest entry first.
pub open spec fn pushed(entries: Seq<CacheEntryView>, limit: nat, entry: CacheEntryView) -> Seq<
    CacheEntryView,
> {
    if entries.len() >= limit {
        entries.drop_first().push(entry)
    } else {
        entries.push(entry)
    }
}

/// An entry with one more retry counted, the count staying where it is once
/// it has reached the end of its range.
pub open spec fn bumped(entry: CacheEntryView) -> CacheEntryView {
    CacheEntryView {
        retry_count: if entry.retry_count == u32::MAX {
            u32::MAX
        } else {
            (entry.retry_count + 1) as u32
        },
        ..entry
    }
}

/// A bounded queue of packets, the oldest first.
pub struct PacketRing {
    ring: AllocRingBuffer<CacheEntry>,
    capacity: usize,
    pushes: usize,
}

impl PacketRing {
    /// The entries held, the one that arrived longest ago first.
    pub closed spec fn entries(&self) -> Seq<CacheEntryView> {
        entry_views(ring_entries(self.ring))
    }

    /// The number of entries that the queue holds at most.
    pub closed spec fn limit(&self) -> nat {
        self.capacity as nat
    }

    /// The queue holds no more than its limit, and its bookkeeping agrees
    /// with the ring.
    pub closed spec fn well_formed(&self) -> bool {
        &&& 0 < self.capacity <= MAX_CAPACITY
        &&& ring_entries(self.ring).len() <= self.capacity
        &&& ring_capacity(self.ring) == self.capacity
        &&& ring_pushes(self.ring) == self.pushes
        &&& self.pushes <= PUSH_LIMIT + MAX_CAPACITY
    }

    /// A well-formed queue has at least one place, no more places than the
    /// machine can hold, and no more entries than places.
    pub proof fn lemma_bounds(&self)
        requires
            self.well_formed(),
        ensures
            0 < self.limit() <= MAX_CAPACITY,
            self.entries().len() <= self.limit(),
    {
    }

    /// An empty queue of `capacity` places. A capacity of zero, or one that
    /// the machine cannot hold, is refused.
    pub fn new(capacity: usize) -> (r: Result<PacketRing, ConfigError>)
        ensures
            capacity == 0 || capacity > MAX_CAPACITY ==> r is Err && r->Err_0
                == ConfigError::InvalidBufferSize,
            0 < capacity <= MAX_CAPACITY ==> r is Ok && r->Ok_0.well_formed() && r->Ok_0.limit()
                == capacity && r->Ok_0.entries() == Seq::<CacheEntryView>::empty(),
    {
        if capacity == 0 || capacity > MAX_CAPACITY {
            return Err(ConfigError::InvalidBufferSize);
        }
        let ring = ring_new(capacity);
        let queue = PacketRing { ring, capacity, pushes: 0 };
        assert(queue.entries() =~= Seq::empty());
        Ok(queue)
    }

    /// Number of entries held.
    pub fn len(&self) -> (n: usize)
        ensures
            n == self.entries().len(),
    {
        ring_len(&self.ring)
    }

    /// Number of entries that the queue holds at most.
    pub fn capacity(&self) -> (n: usize)
        ensures
            n == self.limit(),
    {
        self.capacity
    }

    /// The entry at place `i`, counted from the oldest, if the queue holds
    /// that many.
    pub fn get(&self, i: usize) -> (entry: Option<&CacheEntry>)
        ensures
            i < self.entries().len() ==> entry.is_some() && entry.unwrap()@ == self.entries()[i as int],
            i >= self.entries().len() ==> entry.is_none(),
    {
        if i < ring_len(&self.ring) {
            Some(ring_get(&self.ring, i))
        } else {
            None
        }
    }

    /// Moves the entries to a fresh ring, which starts its count of pushes
    /// anew. The queue holds what it held.
    fn renew(&mut self)
        requires
            old(self).well_formed(),
        ensures
            final(self).well_formed(),
            final(self).entries() == old(self).entries(),
            final(self).limit() == old(self).limit(),
            final(self).pushes <= MAX_CAPACITY,
    {
        let ghost orig = ring_entries(self.ring);
        let n: usize = ring_len(&self.ring);
        let mut fresh = ring_new(self.capacity);
        let mut k: usize = 0;
        assert(orig.skip(0) =~= orig);
        assert(orig.take(0) =~= Seq::<CacheEntry>::empty());
        while k < n
            invariant
                k <= n,
                n == orig.len(),
                n <= self.capacity <= MAX_CAPACITY,
                self.capacity == old(self).capacity,
                ring_entries(self.ring) == orig.skip(k as int),
                ring_entries(fresh) == orig.take(k as int),
                ring_capacity(fresh) == self.capacity,
                ring_pushes(fresh) == k,
            decreases n - k,
        {
            let taken = ring_dequeue(&mut self.ring);
            match taken {
                Some(entry) => {
                    ring_push(&mut fresh, entry);
                },
                None => {},
            }
            k = k + 1;
            assert(ring_entries(self.ring) =~= orig.skip(k as int));
            assert(ring_entries(fresh) =~= orig.take(k as int));
        }
        assert(orig.take(n as int) =~= orig);
        self.ring = fresh;
        self.pushes = n;
    }

    /// Adds an entry at the end. A full queue loses its oldest entry first.
    pub fn push(&mut self, entry: CacheEntry)
        requires
            old(self).well_formed(),
        ensures
            final(self).well_formed(),
            final(self).limit() == old(self).limit(),
            final(self).entries() == pushed(old(self).entries(), old(self).limit(), entry@),
    {
        proof {
            lemma_limits();
        }
        if self.pushes > PUSH_LIMIT {
            self.renew();
        }
        let ghost held = ring_entries(self.ring);
        ring_push(&mut self.ring, entry);
        self.pushes = self.pushes + 1;
        proof {
            if held.len() == self.capacity {
                assert(entry_views(held.drop_first().push(entry)) =~= entry_views(
                    held,
                ).drop_first().push(entry@));
            } else {
                assert(entry_views(held.push(entry)) =~= entry_views(held).push(entry@));
            }
        }
    }

    /// Takes out the oldest entry, if there is one.
    pub fn pop(&mut self) -> (entry: Option<CacheEntry>)
        requires
            old(self).well_formed(),
        ensures
            final(self).well_formed(),
            final(self).limit() == old(self).limit(),
            old(self).entries().len() == 0 ==> entry.is_none() && final(self).entries() == old(
                self,
            ).entries(),
            old(self).entries().len() > 0 ==> entry.is_some() && entry.unwrap()@ == old(
                self,
            ).entries()[0] && final(self).entries() == old(self).entries().drop_first(),
    {
        let ghost held = ring_entries(self.ring);
        let taken = ring_dequeue(&mut self.ring);
        proof {
            if held.len() > 0 {
                assert(entry_views(held.drop_first()) =~= entry_views(held).drop_first());
            }
        }
        taken
    }

    /// Takes the entry at place `i` out of the queue and leaves the others in
    /// their order: each entry is taken from the front and, unless it is the
    /// one to go, pushed again at the back.
    pub(crate) fn remove(&mut self, i: usize)
        requires
            old(self).well_formed(),
            i < old(self).entries().len(),
        ensures
            final(self).well_formed(),
            final(self).limit() == old(self).limit(),
            final(self).entries() == old(self).entries().remove(i as int),
    {
        proof {
            lemma_limits();
        }
        if self.pushes > PUSH_LIMIT {
            self.renew();
        }
        let ghost start = self.pushes;
        let ghost orig = ring_entries(self.ring);
        let n: usize = ring_len(&self.ring);
        let mut k: usize = 0;
        assert(orig.skip(0) + orig.take(0) =~= orig);
        while k < n
            invariant
                k <= n,
                i < n,
                n == orig.len(),
                n <= self.capacity <= MAX_CAPACITY,
                self.capacity == old(self).capacity,
                ring_capacity(self.ring) == self.capacity,
                ring_pushes(self.ring) == self.pushes,
                self.pushes == start + if k <= i {
                    k as int
                } else {
                    k - 1
                },
                start <= PUSH_LIMIT,
                PUSH_LIMIT + MAX_CAPACITY < usize::MAX,
                ring_entries(self.ring) == orig.skip(k as int) + if k <= i {
                    orig.take(k as int)
                } else {
                    orig.take(k as int).remove(i as int)
                },
            decreases n - k,
        {
            let taken = ring_dequeue(&mut self.ring);
            match taken {
                Some(entry) => {
                    if k != i {
                        ring_push(&mut self.ring, entry);
                        self.pushes = self.pushes + 1;
                    }
                },
                None => {},
            }
            k = k + 1;
            assert(ring_entries(self.ring) =~= orig.skip(k as int) + if k <= i {
                orig.take(k as int)
            } else {
                orig.take(k as int).remove(i as int)
            });
        }
        assert(orig.skip(n as int) + orig.take(n as int).remove(i as int) =~= orig.remove(
            i as int,
        ));
        assert(entry_views(orig.remove(i as int)) =~= entry_views(orig).remove(i as int));
    }

    /// Hands out a copy of the bytes of the entry at place `i` and counts one
    /// more retry for it.
    pub(crate) fn retry(&mut self, i: usize) -> (bytes: Vec<u8>)
        requires
            old(self).well_formed(),
            i < old(self).entries().len(),
        ensures
            final(self).well_formed(),
            final(self).limit() == old(self).limit(),
            bytes@ == old(self).entries()[i as int].bytes,
            final(self).entries() == old(self).entries().update(
                i as int,
                bumped(old(self).entries()[i as int]),
            ),
    {
        let entry = ring_get_mut(&mut self.ring, i);
        if entry.retry_count < u32::MAX {
            entry.retry_count = entry.retry_count + 1;
        }
        let bytes = slice_to_vec(entry.bytes.as_slice());
        assert(self.entries() =~= old(self).entries().update(
            i as int,
            bumped(old(self).entries()[i as int]),
        ));
        bytes
    }
}

} // verus!
