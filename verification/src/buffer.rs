//! Byte buffers of the `bytes` crate and what they hold.
use bytes::{BufMut, Bytes, BytesMut};
use vstd::prelude::*;

verus! {

/// `bytes::Bytes`: an immutable byte string.
#[verifier::external_type_specification]
#[verifier::external_body]
pub struct ExBytes(bytes::Bytes);

/// `bytes::BytesMut`: a byte string that grows.
#[verifier::external_type_specification]
#[verifier::external_body]
pub struct ExBytesMut(bytes::BytesMut);

/// The bytes that a `Bytes` holds.
pub uninterp spec fn bytes_held(b: Bytes) -> Seq<u8>;

/// The bytes that a `BytesMut` holds.
pub uninterp spec fn bytes_written(b: BytesMut) -> Seq<u8>;

/// The most bytes that a buffer takes: it grows by doubling, and no allocation
/// is larger than `isize::MAX`.
pub open spec fn buffer_limit() -> int {
    isize::MAX / 2
}

/// Calls `BytesMut::new`, which returns an empty buffer.
#[verifier::external_body]
pub(crate) fn new_buffer() -> (res: BytesMut)
    ensures
        bytes_written(res) == Seq::<u8>::empty(),
{
    BytesMut::new()
}

/// Calls `BufMut::put_slice` of `BytesMut`, which appends the slice. It panics
/// where the buffer cannot grow that far.
#[verifier::external_body]
pub(crate) fn put_slice(buffer: &mut BytesMut, src: &[u8])
    requires
        bytes_written(*old(buffer)).len() + src@.len() <= buffer_limit(),
    ensures
        bytes_written(*final(buffer)) == bytes_written(*old(buffer)) + src@,
{
    buffer.put_slice(src)
}

/// Calls `BufMut::put_u8` of `BytesMut`, which appends the byte. It panics
/// where the buffer cannot grow that far.
#[verifier::external_body]
pub(crate) fn put_u8(buffer: &mut BytesMut, byte: u8)
    requires
        bytes_written(*old(buffer)).len() + 1 <= buffer_limit(),
    ensures
        bytes_written(*final(buffer)) == bytes_written(*old(buffer)).push(byte),
{
    buffer.put_u8(byte)
}

/// Calls `BytesMut::freeze`, which hands over what the buffer holds.
#[verifier::external_body]
pub(crate) fn freeze(buffer: BytesMut) -> (res: Bytes)
    ensures
        bytes_held(res) == bytes_written(buffer),
{
    buffer.freeze()
}

} // verus!
