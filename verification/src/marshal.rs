//! The interface that every packet type offers for writing itself to bytes.
use vstd::prelude::*;
use crate::error::CodecError;
use crate::wire::overwrite;

verus! {

/// A value with a byte encoding.
///
/// `wire` is the encoding as a mathematical sequence; `encodable` says whether
/// every field fits the width that the format gives it. The two executable
/// methods are specified against them.
pub trait Marshal {
    /// The bytes that stand for this value on the wire.
    spec fn wire(&self) -> Seq<u8>;

    /// Every field fits the place that the format gives it.
    spec fn encodable(&self) -> bool;

    /// Size of the encoding in bytes.
    fn marshal_size(&self) -> (n: usize)
        requires
            self.wire().len() <= usize::MAX,
        ensures
            n == self.wire().len(),
    ;

    /// Writes the encoding at the start of `buf` and returns its length.
    ///
    /// A buffer shorter than the encoding is refused first, a field that does
    /// not fit second; in both cases `buf` is left as it was.
    fn marshal(&self, buf: &mut [u8]) -> (r: Result<usize, CodecError>)
        ensures
            old(buf)@.len() < self.wire().len() ==> r == Err::<usize, CodecError>(
                CodecError::BufferTooSmall,
            ),
            old(buf)@.len() >= self.wire().len() && !self.encodable() ==> r == Err::<
                usize,
                CodecError,
            >(CodecError::FieldOutOfRange),
            old(buf)@.len() >= self.wire().len() && self.encodable() ==> r == Ok::<
                usize,
                CodecError,
            >(self.wire().len() as usize),
            r is Ok ==> final(buf)@ == overwrite(old(buf)@, 0, self.wire()),
            r is Err ==> final(buf)@ == old(buf)@,
    ;
}

/// The encoding of `value` in a buffer of its own.
pub fn to_bytes<M: Marshal>(value: &M) -> (r: Result<Vec<u8>, CodecError>)
    requires
        value.wire().len() <= usize::MAX,
    ensures
        value.encodable() ==> r is Ok && r->Ok_0@ == value.wire(),
        !value.encodable() ==> r == Err::<Vec<u8>, CodecError>(CodecError::FieldOutOfRange),
{
    let size: usize = value.marshal_size();
    let mut bytes: Vec<u8> = vec![0u8; size];
    let written = value.marshal(bytes.as_mut_slice());
    match written {
        Ok(_) => {
            assert(bytes@ =~= value.wire());
            Ok(bytes)
        },
        Err(e) => Err(e),
    }
}

} // verus!
