//! The growable byte buffer that holds what has arrived and is not yet used.

use bytes::BytesMut;
use vstd::prelude::*;

verus! {

/// `bytes::BytesMut`, a growable buffer of bytes.
#[verifier::external_type_specification]
#[verifier::external_body]
pub struct ExBytesMut(BytesMut);

/// The bytes that a `BytesMut` holds.
pub uninterp spec fn contents(buffer: BytesMut) -> Seq<u8>;

/// How many bytes a buffer may hold. A buffer grows by allocating a multiple of
/// what it holds, at most four times as much, and no allocation is larger than
/// `isize::MAX` bytes.
pub open spec fn capacity_limit() -> int {
    isize::MAX / 4
}

/// `BytesMut::new`: the new buffer holds nothing.
#[verifier::external_body]
pub(crate) fn empty() -> (buffer: BytesMut)
    ensures
        contents(buffer) == Seq::<u8>::empty(),
{
    BytesMut::new()
}

/// `BytesMut::extend_from_slice`: the bytes are appended.
#[verifier::external_body]
pub(crate) fn append(buffer: &mut BytesMut, extension: &[u8])
    requires
        contents(*old(buffer)).len() + extension@.len() <= capacity_limit(),
    ensures
        contents(*final(buffer)) == contents(*old(buffer)) + extension@,
{
    buffer.extend_from_slice(extension)
}

/// `BytesMut::len`: the number of bytes held.
#[verifier::external_body]
pub(crate) fn length(buffer: &BytesMut) -> (len: usize)
    ensures
        len == contents(*buffer).len(),
{
    buffer.len()
}

/// `BytesMut::as_ref`: the bytes held, as a slice.
#[verifier::external_body]
pub(crate) fn as_slice(buffer: &BytesMut) -> (bytes: &[u8])
    ensures
        bytes@ == contents(*buffer),
{
    buffer.as_ref()
}

/// `BytesMut::advance`: the first `count` bytes are dropped. It panics where
/// fewer are held.
#[verifier::external_body]
pub(crate) fn advance(buffer: &mut BytesMut, count: usize)
    requires
        count <= contents(*old(buffer)).len(),
    ensures
        contents(*final(buffer)) == contents(*old(buffer)).skip(count as int),
{
    buffer.advance(count)
}

/// `BytesMut::split_to`: the first `at` bytes leave the buffer and are handed
/// out as a buffer of their own. It panics where fewer are held.
#[verifier::external_body]
pub(crate) fn split_to(buffer: &mut BytesMut, at: usize) -> (front: BytesMut)
    requires
        at <= contents(*old(buffer)).len(),
    ensures
        contents(front) == contents(*old(buffer)).take(at as int),
        contents(*final(buffer)) == contents(*old(buffer)).skip(at as int),
{
    buffer.split_to(at)
}

} // verus!
