//! The boundary to the `ringbuffer` crate.
//!
//! The sender's queues keep their entries in an `AllocRingBuffer`. The
//! verifier cannot look into one, so what a queue needs to know of it has
//! names here: the entries it holds, oldest first, the capacity it was made
//! with, and the number of pushes made on it. The functions below say what
//! each method of the crate does to those, as the crate's source shows it;
//! they are believed without proof.
use ringbuffer::{AllocRingBuffer, RingBuffer};
use vstd::prelude::*;
use crate::runtime::cache::CacheEntry;

verus! {

/// `ringbuffer::AllocRingBuffer`, carried through without looking inside.
#[verifier::external_type_specification]
#[verifier::external_body]
#[verifier::reject_recursive_types(T)]
pub struct ExAllocRingBuffer<T>(AllocRingBuffer<T>);

/// Bytes that one entry takes at most, on a machine of 32 or of 64 bits: a
/// sequence number, a vector, a send time and a count of retries.
pub const ENTRY_BYTES: usize = 64;

/// The largest capacity that the machine can hold a ring of. The crate
/// allocates the next power of two of the capacity, which is less than twice
/// the capacity, and the allocation's size in bytes must fit `isize`, which
/// is half of `usize`: so the capacity times 256 must fit `usize`.
pub const MAX_CAPACITY: usize = usize::MAX / (4 * ENTRY_BYTES);

/// The entries that the ring holds, the one pushed longest ago first.
pub uninterp spec fn ring_entries(ring: AllocRingBuffer<CacheEntry>) -> Seq<CacheEntry>;

/// The capacity that the ring was made with.
pub uninterp spec fn ring_capacity(ring: AllocRingBuffer<CacheEntry>) -> nat;

/// The number of pushes made on the ring since it was made. The crate keeps
/// this count in a `usize`.
pub uninterp spec fn ring_pushes(ring: AllocRingBuffer<CacheEntry>) -> nat;

/// `AllocRingBuffer::new` makes an empty ring of the given capacity. It
/// panics on a capacity of zero, and where the next power of two of the
/// capacity, or the size in bytes of as many entries, is more than the
/// machine's integers hold; the bound on the capacity leaves both out. The
/// crate does not test whether the allocation succeeded.
#[verifier::external_body]
pub(crate) fn ring_new(capacity: usize) -> (ring: AllocRingBuffer<CacheEntry>)
    requires
        0 < capacity <= MAX_CAPACITY,
    ensures
        ring_entries(ring) == Seq::<CacheEntry>::empty(),
        ring_capacity(ring) == capacity,
        ring_pushes(ring) == 0,
{
    AllocRingBuffer::new(capacity)
}

/// `RingBuffer::len` returns the number of entries held.
#[verifier::external_body]
pub(crate) fn ring_len(ring: &AllocRingBuffer<CacheEntry>) -> (len: usize)
    ensures
        len == ring_entries(*ring).len(),
{
    ring.len()
}

/// `RingBuffer::push` appends an entry. On a full ring it first drops the
/// entry that was pushed longest ago. It counts the push, which a debug
/// build checks for overflow.
#[verifier::external_body]
pub(crate) fn ring_push(ring: &mut AllocRingBuffer<CacheEntry>, entry: CacheEntry)
    requires
        ring_pushes(*old(ring)) < usize::MAX,
    ensures
        ring_capacity(*final(ring)) == ring_capacity(*old(ring)),
        ring_pushes(*final(ring)) == ring_pushes(*old(ring)) + 1,
        ring_entries(*final(ring)) == if ring_entries(*old(ring)).len() == ring_capacity(
            *old(ring),
        ) {
            ring_entries(*old(ring)).drop_first().push(entry)
        } else {
            ring_entries(*old(ring)).push(entry)
        },
{
    ring.push(entry)
}

/// `RingBuffer::dequeue` takes out the entry that was pushed longest ago,
/// and returns nothing on an empty ring.
#[verifier::external_body]
pub(crate) fn ring_dequeue(ring: &mut AllocRingBuffer<CacheEntry>) -> (entry: Option<CacheEntry>)
    ensures
        ring_capacity(*final(ring)) == ring_capacity(*old(ring)),
        ring_pushes(*final(ring)) == ring_pushes(*old(ring)),
        ring_entries(*old(ring)).len() == 0 ==> entry.is_none() && ring_entries(*final(ring))
            == ring_entries(*old(ring)),
        ring_entries(*old(ring)).len() > 0 ==> entry == Some(ring_entries(*old(ring))[0])
            && ring_entries(*final(ring)) == ring_entries(*old(ring)).drop_first(),
{
    ring.dequeue()
}

/// Indexing a ring, `Index::index`, gives the entry at that place, counted
/// from the one pushed longest ago. It panics on an empty ring and wraps
/// around on an index beyond the last entry, which the bound leaves out.
#[verifier::external_body]
pub(crate) fn ring_get(ring: &AllocRingBuffer<CacheEntry>, index: usize) -> (entry: &CacheEntry)
    requires
        index < ring_entries(*ring).len(),
    ensures
        *entry == ring_entries(*ring)[index as int],
{
    &ring[index]
}

/// Indexing a ring for writing, `IndexMut::index_mut`, gives the entry at
/// that place, counted from the one pushed longest ago. What is written
/// through the reference takes the entry's place; nothing else changes.
#[verifier::external_body]
pub(crate) fn ring_get_mut(ring: &mut AllocRingBuffer<CacheEntry>, index: usize) -> (entry:
    &mut CacheEntry)
    requires
        index < ring_entries(*old(ring)).len(),
    ensures
        *entry == ring_entries(*old(ring))[index as int],
        ring_capacity(*final(ring)) == ring_capacity(*old(ring)),
        ring_pushes(*final(ring)) == ring_pushes(*old(ring)),
        ring_entries(*final(ring)) == ring_entries(*old(ring)).update(
            index as int,
            *final(entry),
        ),
{
    &mut ring[index]
}

} // verus!
