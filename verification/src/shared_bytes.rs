//! What this crate relies on of the reference-counted buffers of the `bytes`
//! crate.
use bytes::{Bytes, BytesMut};
use vstd::prelude::*;

verus! {

/// A cheaply cloneable, immutable buffer.
#[verifier::external_type_specification]
#[verifier::external_body]
pub struct ExBytes(Bytes);

/// A buffer that is still being written.
#[verifier::external_type_specification]
#[verifier::external_body]
pub struct ExBytesMut(BytesMut);

/// The bytes that a [`Bytes`] gives access to.
pub uninterp spec fn contents(buffer: Bytes) -> Seq<u8>;

/// The bytes written into a [`BytesMut`] so far.
pub uninterp spec fn written(buffer: BytesMut) -> Seq<u8>;

/// The default `Bytes` is a buffer without bytes.
pub assume_specification[ <Bytes as Default>::default ]() -> (buffer: Bytes)
    ensures
        contents(buffer) == Seq::<u8>::empty(),
;

/// `Bytes::len` is the number of bytes in the buffer.
pub assume_specification[ Bytes::len ](buffer: &Bytes) -> (len: usize)
    ensures
        len == contents(*buffer).len(),
;

/// `Bytes::is_empty` says whether the buffer has no bytes.
pub assume_specification[ Bytes::is_empty ](buffer: &Bytes) -> (empty: bool)
    ensures
        empty == (contents(*buffer).len() == 0),
;

/// `Bytes::split_to` takes the first `at` bytes out of the buffer, which keeps
/// the rest. It panics where there are not that many.
pub assume_specification[ Bytes::split_to ](buffer: &mut Bytes, at: usize) -> (front: Bytes)
    requires
        at <= contents(*old(buffer)).len(),
    ensures
        contents(front) == contents(*old(buffer)).take(at as int),
        contents(*final(buffer)) == contents(*old(buffer)).skip(at as int),
;

/// `Bytes::copy_from_slice` makes a buffer with the bytes of the slice.
pub assume_specification[ Bytes::copy_from_slice ](data: &[u8]) -> (buffer: Bytes)
    ensures
        contents(buffer) == data@,
;

/// A vector becomes a buffer with its bytes.
pub assume_specification[ <Bytes as From<Vec<u8>>>::from ](vec: Vec<u8>) -> (buffer: Bytes)
    ensures
        contents(buffer) == vec@,
;

/// A `Bytes` dereferences to the slice of its bytes.
pub assume_specification[ <Bytes as core::ops::Deref>::deref ](buffer: &Bytes) -> (slice: &[u8])
    ensures
        slice@ == contents(*buffer),
;

/// `BytesMut::with_capacity` gives a buffer without bytes. It panics where the
/// capacity is more than an allocation can hold.
pub assume_specification[ BytesMut::with_capacity ](capacity: usize) -> (buffer: BytesMut)
    requires
        capacity <= isize::MAX,
    ensures
        written(buffer) == Seq::<u8>::empty(),
;

/// `BytesMut::extend_from_slice` appends the bytes of the slice. It panics where
/// the result is more than an allocation can hold.
pub assume_specification[ BytesMut::extend_from_slice ](buffer: &mut BytesMut, extend: &[u8])
    requires
        written(*old(buffer)).len() + extend@.len() <= isize::MAX,
    ensures
        written(*final(buffer)) == written(*old(buffer)) + extend@,
;

/// `BytesMut::freeze` gives a buffer with the bytes that were written.
pub assume_specification[ BytesMut::freeze ](buffer: BytesMut) -> (frozen: Bytes)
    ensures
        contents(frozen) == written(buffer),
;

} // verus!
