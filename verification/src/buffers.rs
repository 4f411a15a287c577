//! Byte buffers of the `bytes` crate: what they hold, and what the calls made
//! on them do to it.
use bytes::{Bytes, BytesMut};
use vstd::prelude::*;

verus! {

/// A cheaply cloned, immutable byte buffer.
#[verifier::external_type_specification]
#[verifier::external_body]
pub struct ExBytes(Bytes);

/// A growable byte buffer.
#[verifier::external_type_specification]
#[verifier::external_body]
pub struct ExBytesMut(BytesMut);

/// The bytes that a `Bytes` holds.
pub uninterp spec fn bytes_of(buffer: Bytes) -> Seq<u8>;

/// The bytes that a `BytesMut` holds.
pub uninterp spec fn bytes_mut_of(buffer: BytesMut) -> Seq<u8>;

/// `Bytes` dereferences to the slice of the bytes it holds.
pub assume_specification[ <Bytes as core::ops::Deref>::deref ](buffer: &Bytes) -> (slice: &[u8])
    ensures
        slice@ == bytes_of(*buffer),
;

/// `Bytes::copy_from_slice` makes a buffer that holds a copy of the slice.
pub assume_specification[ Bytes::copy_from_slice ](data: &[u8]) -> (buffer: Bytes)
    ensures
        bytes_of(buffer) == data@,
;

/// `BytesMut` dereferences to the slice of the bytes it holds.
pub assume_specification[ <BytesMut as core::ops::Deref>::deref ](buffer: &BytesMut) -> (slice:
    &[u8])
    ensures
        slice@ == bytes_mut_of(*buffer),
;

/// `BytesMut::with_capacity` makes a buffer that holds nothing yet.
pub assume_specification[ BytesMut::with_capacity ](capacity: usize) -> (buffer: BytesMut)
    requires
        capacity <= isize::MAX,
    ensures
        bytes_mut_of(buffer) == Seq::<u8>::empty(),
;

/// `BytesMut::extend_from_slice` appends the slice.
pub assume_specification[ BytesMut::extend_from_slice ](buffer: &mut BytesMut, extend: &[u8])
    requires
        bytes_mut_of(*old(buffer)).len() + extend@.len() <= isize::MAX,
    ensures
        bytes_mut_of(*final(buffer)) == bytes_mut_of(*old(buffer)) + extend@,
;

/// `BytesMut::split_to` takes the first `at` bytes out of the buffer and
/// returns them; it panics where the buffer holds fewer.
pub assume_specification[ BytesMut::split_to ](buffer: &mut BytesMut, at: usize) -> (front:
    BytesMut)
    requires
        at <= bytes_mut_of(*old(buffer)).len(),
    ensures
        bytes_mut_of(front) == bytes_mut_of(*old(buffer)).take(at as int),
        bytes_mut_of(*final(buffer)) == bytes_mut_of(*old(buffer)).skip(at as int),
;

/// `BytesMut::freeze` turns the buffer into an immutable one that holds the
/// same bytes.
pub assume_specification[ BytesMut::freeze ](buffer: BytesMut) -> (frozen: Bytes)
    ensures
        bytes_of(frozen) == bytes_mut_of(buffer),
;

} // verus!
