//! Big-endian integers and byte-level buffer updates.
//!
//! Every multi-byte field of RTP and RTCP travels most significant byte first.
//! The functions here say what those bytes are and prove that reading undoes
//! writing.
use vstd::prelude::*;

verus! {

/// The two bytes of `x`, most significant first.
pub open spec fn be16(x: u16) -> Seq<u8> {
    seq![(x / 0x100) as u8, (x % 0x100) as u8]
}

/// The four bytes of `x`, most significant first.
pub open spec fn be32(x: u32) -> Seq<u8> {
    seq![
        (x / 0x100_0000) as u8,
        (x / 0x1_0000 % 0x100) as u8,
        (x / 0x100 % 0x100) as u8,
        (x % 0x100) as u8,
    ]
}

/// The eight bytes of `x`, most significant first.
pub open spec fn be64(x: u64) -> Seq<u8> {
    be32((x / 0x1_0000_0000) as u32) + be32((x % 0x1_0000_0000) as u32)
}

/// The number whose big-endian bytes are `b[at]` and `b[at + 1]`.
pub open spec fn from_be16(b: Seq<u8>, at: int) -> u16 {
    (b[at] * 0x100 + b[at + 1]) as u16
}

/// The number whose big-endian bytes are `b[at] .. b[at + 3]`.
pub open spec fn from_be32(b: Seq<u8>, at: int) -> u32 {
    (b[at] * 0x100_0000 + b[at + 1] * 0x1_0000 + b[at + 2] * 0x100 + b[at + 3]) as u32
}

/// The number whose big-endian bytes are `b[at] .. b[at + 7]`.
pub open spec fn from_be64(b: Seq<u8>, at: int) -> u64 {
    (from_be32(b, at) * 0x1_0000_0000 + from_be32(b, at + 4)) as u64
}

/// `s` with the bytes of `patch` laid over it from index `at` on.
pub open spec fn overwrite(s: Seq<u8>, at: int, patch: Seq<u8>) -> Seq<u8> {
    Seq::new(
        s.len(),
        |i: int|
            if at <= i < at + patch.len() {
                patch[i - at]
            } else {
                s[i]
            },
    )
}

/// `n` bytes, each of them zero.
pub open spec fn zeros(n: nat) -> Seq<u8> {
    Seq::new(n, |i: int| 0u8)
}

/// 1 for a set flag, 0 for a clear one.
pub open spec fn flag(b: bool) -> int {
    if b {
        1
    } else {
        0
    }
}

/// Reading two bytes that were written from `x` gives `x` back.
pub proof fn lemma_be16_roundtrip(x: u16)
    ensures
        be16(x).len() == 2,
        from_be16(be16(x), 0) == x,
{
}

/// Reading four bytes that were written from `x` gives `x` back.
pub proof fn lemma_be32_roundtrip(x: u32)
    ensures
        be32(x).len() == 4,
        from_be32(be32(x), 0) == x,
{
}

/// Reading eight bytes that were written from `x` gives `x` back.
pub proof fn lemma_be64_roundtrip(x: u64)
    ensures
        be64(x).len() == 8,
        from_be64(be64(x), 0) == x,
{
    let hi = (x / 0x1_0000_0000) as u32;
    let lo = (x % 0x1_0000_0000) as u32;
    lemma_be32_roundtrip(hi);
    lemma_be32_roundtrip(lo);
    let b = be64(x);
    assert(from_be32(b, 0) == from_be32(be32(hi), 0));
    assert(from_be32(b, 4) == from_be32(be32(lo), 0));
}

/// Where the two bytes from `at` on are those of `x`, reading there gives `x`.
pub proof fn lemma_field16(b: Seq<u8>, at: int, x: u16)
    requires
        0 <= at,
        at + 2 <= b.len(),
        b.subrange(at, at + 2) == be16(x),
    ensures
        from_be16(b, at) == x,
{
    let f = b.subrange(at, at + 2);
    assert(b[at] == f[0] && b[at + 1] == f[1]);
    lemma_be16_roundtrip(x);
}

/// Where the four bytes from `at` on are those of `x`, reading there gives
/// `x`.
pub proof fn lemma_field32(b: Seq<u8>, at: int, x: u32)
    requires
        0 <= at,
        at + 4 <= b.len(),
        b.subrange(at, at + 4) == be32(x),
    ensures
        from_be32(b, at) == x,
{
    let f = b.subrange(at, at + 4);
    assert(b[at] == f[0] && b[at + 1] == f[1] && b[at + 2] == f[2] && b[at + 3] == f[3]);
    lemma_be32_roundtrip(x);
}

/// Where the eight bytes from `at` on are those of `x`, reading there gives
/// `x`.
pub proof fn lemma_field64(b: Seq<u8>, at: int, x: u64)
    requires
        0 <= at,
        at + 8 <= b.len(),
        b.subrange(at, at + 8) == be64(x),
    ensures
        from_be64(b, at) == x,
{
    let f = b.subrange(at, at + 8);
    let hi = (x / 0x1_0000_0000) as u32;
    let lo = (x % 0x1_0000_0000) as u32;
    assert(b.subrange(at, at + 4) =~= f.subrange(0, 4));
    assert(b.subrange(at + 4, at + 8) =~= f.subrange(4, 8));
    assert(f.subrange(0, 4) =~= be32(hi));
    assert(f.subrange(4, 8) =~= be32(lo));
    lemma_field32(b, at, hi);
    lemma_field32(b, at + 4, lo);
}

/// The bit that stands for `b`: 1 when set, 0 when clear.
pub fn flag_bit(b: bool) -> (x: u8)
    ensures
        x == flag(b),
{
    if b {
        1
    } else {
        0
    }
}

/// Writes `x` at `buf[at]`.
pub(crate) fn put_u8(buf: &mut [u8], at: usize, x: u8)
    requires
        at < old(buf)@.len(),
    ensures
        final(buf)@ == overwrite(old(buf)@, at as int, seq![x]),
{
    buf[at] = x;
    assert(buf@ =~= overwrite(old(buf)@, at as int, seq![x]));
}

/// Writes `x` at `buf[at]` and `buf[at + 1]`, most significant byte first.
pub(crate) fn put_u16(buf: &mut [u8], at: usize, x: u16)
    requires
        at + 2 <= old(buf)@.len(),
    ensures
        final(buf)@ == overwrite(old(buf)@, at as int, be16(x)),
{
    buf[at] = (x / 0x100) as u8;
    buf[at + 1] = (x % 0x100) as u8;
    assert(buf@ =~= overwrite(old(buf)@, at as int, be16(x)));
}

/// Writes `x` at `buf[at] .. buf[at + 3]`, most significant byte first.
pub(crate) fn put_u32(buf: &mut [u8], at: usize, x: u32)
    requires
        at + 4 <= old(buf)@.len(),
    ensures
        final(buf)@ == overwrite(old(buf)@, at as int, be32(x)),
{
    buf[at] = (x / 0x100_0000) as u8;
    buf[at + 1] = (x / 0x1_0000 % 0x100) as u8;
    buf[at + 2] = (x / 0x100 % 0x100) as u8;
    buf[at + 3] = (x % 0x100) as u8;
    assert(buf@ =~= overwrite(old(buf)@, at as int, be32(x)));
}

/// Writes `x` at `buf[at] .. buf[at + 7]`, most significant byte first.
pub(crate) fn put_u64(buf: &mut [u8], at: usize, x: u64)
    requires
        at + 8 <= old(buf)@.len(),
    ensures
        final(buf)@ == overwrite(old(buf)@, at as int, be64(x)),
{
    assert(at + 8 <= buf.len());
    put_u32(buf, at, (x / 0x1_0000_0000) as u32);
    put_u32(buf, at + 4, (x % 0x1_0000_0000) as u32);
    assert(buf@ =~= overwrite(old(buf)@, at as int, be64(x)));
}

/// Writes the bytes of `src` at `buf[at]` and after.
pub(crate) fn put_bytes(buf: &mut [u8], at: usize, src: &[u8])
    requires
        at + src@.len() <= old(buf)@.len(),
    ensures
        final(buf)@ == overwrite(old(buf)@, at as int, src@),
{
    let n: usize = src.len();
    assert(at + n <= buf.len());
    let mut i: usize = 0;
    while i < n
        invariant
            n == src@.len(),
            i <= n,
            at + n <= buf@.len() <= usize::MAX,
            buf@.len() == old(buf)@.len(),
            buf@ == overwrite(old(buf)@, at as int, src@.subrange(0, i as int)),
        decreases n - i,
    {
        buf[at + i] = src[i];
        i = i + 1;
        assert(buf@ =~= overwrite(old(buf)@, at as int, src@.subrange(0, i as int)));
    }
    assert(src@.subrange(0, n as int) =~= src@);
}

/// Writes `count` zero bytes at `buf[at]` and after.
pub(crate) fn put_zeros(buf: &mut [u8], at: usize, count: usize)
    requires
        at + count <= old(buf)@.len(),
    ensures
        final(buf)@ == overwrite(old(buf)@, at as int, zeros(count as nat)),
{
    assert(at + count <= buf.len());
    let mut i: usize = 0;
    while i < count
        invariant
            i <= count,
            at + count <= buf@.len() <= usize::MAX,
            buf@.len() == old(buf)@.len(),
            buf@ == overwrite(old(buf)@, at as int, zeros(i as nat)),
        decreases count - i,
    {
        buf[at + i] = 0;
        i = i + 1;
        assert(buf@ =~= overwrite(old(buf)@, at as int, zeros(i as nat)));
    }
}

/// Reads the big-endian number at `buf[at]` and `buf[at + 1]`.
pub(crate) fn get_u16(buf: &[u8], at: usize) -> (x: u16)
    requires
        at + 2 <= buf@.len(),
    ensures
        x == from_be16(buf@, at as int),
{
    let hi: u16 = buf[at] as u16;
    let lo: u16 = buf[at + 1] as u16;
    hi * 0x100 + lo
}

/// Reads the big-endian number at `buf[at] .. buf[at + 3]`.
pub(crate) fn get_u32(buf: &[u8], at: usize) -> (x: u32)
    requires
        at + 4 <= buf@.len(),
    ensures
        x == from_be32(buf@, at as int),
{
    let b0: u32 = buf[at] as u32;
    let b1: u32 = buf[at + 1] as u32;
    let b2: u32 = buf[at + 2] as u32;
    let b3: u32 = buf[at + 3] as u32;
    b0 * 0x100_0000 + b1 * 0x1_0000 + b2 * 0x100 + b3
}

/// Reads the big-endian number at `buf[at] .. buf[at + 7]`.
pub(crate) fn get_u64(buf: &[u8], at: usize) -> (x: u64)
    requires
        at + 8 <= buf@.len(),
    ensures
        x == from_be64(buf@, at as int),
{
    assert(at + 8 <= buf.len());
    let hi: u64 = get_u32(buf, at) as u64;
    let lo: u64 = get_u32(buf, at + 4) as u64;
    hi * 0x1_0000_0000 + lo
}

/// A value that travels as two 16-bit numbers, four bytes in all.
pub trait WirePair: Sized {
    /// The two numbers, in the order in which they are written.
    spec fn pair(&self) -> (u16, u16);

    /// The two numbers, in the order in which they are written.
    fn halves(&self) -> (p: (u16, u16))
        ensures
            p == self.pair(),
    ;

    /// The value that the two numbers stand for.
    fn from_halves(first: u16, second: u16) -> (x: Self)
        ensures
            x.pair() == (first, second),
    ;
}

/// The pairs of a list of such values.
pub open spec fn pairs_of<T: WirePair>(items: Seq<T>) -> Seq<(u16, u16)> {
    Seq::new(items.len(), |i: int| items[i].pair())
}

/// The four bytes of a pair.
pub open spec fn pair_wire(p: (u16, u16)) -> Seq<u8> {
    be16(p.0) + be16(p.1)
}

/// The bytes of a list of pairs: four for each, one pair after the other.
pub open spec fn pairs_wire(pairs: Seq<(u16, u16)>) -> Seq<u8> {
    Seq::new(4 * pairs.len(), |i: int| pair_wire(pairs[i / 4])[i % 4])
}

/// The `n` pairs that the bytes from `b[at]` on decode to.
pub open spec fn parse_pairs(b: Seq<u8>, at: int, n: nat) -> Seq<(u16, u16)> {
    Seq::new(n, |j: int| (from_be16(b, at + 4 * j), from_be16(b, at + 4 * j + 2)))
}

/// Where the bytes from `at` on are those of a list of pairs, reading as many
/// pairs there gives the list.
pub proof fn lemma_pairs_at(b: Seq<u8>, at: int, pairs: Seq<(u16, u16)>)
    requires
        0 <= at,
        at + 4 * pairs.len() <= b.len(),
        b.subrange(at, at + 4 * pairs.len()) == pairs_wire(pairs),
    ensures
        parse_pairs(b, at, pairs.len()) == pairs,
{
    let w = pairs_wire(pairs);
    assert forall|j: int| 0 <= j < pairs.len() implies parse_pairs(b, at, pairs.len())[j]
        == pairs[j] by {
        let f = b.subrange(at, at + 4 * pairs.len());
        assert(f[4 * j] == b[at + 4 * j]);
        assert(f[4 * j + 1] == b[at + 4 * j + 1]);
        assert(f[4 * j + 2] == b[at + 4 * j + 2]);
        assert(f[4 * j + 3] == b[at + 4 * j + 3]);
        assert(w[4 * j] == pair_wire(pairs[j])[0]);
        assert(w[4 * j + 1] == pair_wire(pairs[j])[1]);
        assert(w[4 * j + 2] == pair_wire(pairs[j])[2]);
        assert(w[4 * j + 3] == pair_wire(pairs[j])[3]);
        assert(b.subrange(at + 4 * j, at + 4 * j + 2) =~= be16(pairs[j].0));
        assert(b.subrange(at + 4 * j + 2, at + 4 * j + 4) =~= be16(pairs[j].1));
        lemma_field16(b, at + 4 * j, pairs[j].0);
        lemma_field16(b, at + 4 * j + 2, pairs[j].1);
    }
    assert(parse_pairs(b, at, pairs.len()) =~= pairs);
}

/// Writes the pairs of `items`, one after the other, at `buf[at]` and after.
pub(crate) fn put_pairs<T: WirePair>(buf: &mut [u8], at: usize, items: &Vec<T>)
    requires
        at + 4 * items@.len() <= old(buf)@.len(),
    ensures
        final(buf)@ == overwrite(old(buf)@, at as int, pairs_wire(pairs_of(items@))),
{
    let n: usize = items.len();
    assert(at + 4 * n <= buf.len());
    let ghost all = pairs_wire(pairs_of(items@));
    let mut i: usize = 0;
    while i < n
        invariant
            n == items@.len(),
            i <= n,
            at + 4 * n <= buf@.len() <= usize::MAX,
            buf@.len() == old(buf)@.len(),
            all == pairs_wire(pairs_of(items@)),
            forall|k: int| 0 <= k < buf@.len() ==> buf@[k] == if at <= k < at + 4 * i {
                all[k - at]
            } else {
                old(buf)@[k]
            },
        decreases n - i,
    {
        let p: (u16, u16) = items[i].halves();
        let ghost before = buf@;
        put_u16(buf, at + 4 * i, p.0);
        put_u16(buf, at + 4 * i + 2, p.1);
        proof {
            let w = pair_wire(pairs_of(items@)[i as int]);
            assert(all[4 * i] == w[0]);
            assert(all[4 * i + 1] == w[1]);
            assert(all[4 * i + 2] == w[2]);
            assert(all[4 * i + 3] == w[3]);
        }
        i = i + 1;
    }
    assert(buf@ =~= overwrite(old(buf)@, at as int, all));
}

/// Reads `n` values from the pairs at `buf[at]` and after.
pub(crate) fn get_pairs<T: WirePair>(buf: &[u8], at: usize, n: usize) -> (items: Vec<T>)
    requires
        at + 4 * n <= buf@.len(),
    ensures
        pairs_of(items@) == parse_pairs(buf@, at as int, n as nat),
{
    assert(at + 4 * n <= buf.len());
    let mut items: Vec<T> = Vec::new();
    let mut i: usize = 0;
    while i < n
        invariant
            i <= n,
            at + 4 * n <= buf@.len() <= usize::MAX,
            items@.len() == i,
            forall|j: int| 0 <= j < i ==> (#[trigger] items@[j]).pair() == parse_pairs(
                buf@,
                at as int,
                n as nat,
            )[j],
        decreases n - i,
    {
        let first: u16 = get_u16(buf, at + 4 * i);
        let second: u16 = get_u16(buf, at + 4 * i + 2);
        items.push(T::from_halves(first, second));
        i = i + 1;
    }
    assert(pairs_of(items@) =~= parse_pairs(buf@, at as int, n as nat));
    items
}

} // verus!
