//! The byte buffers that the codec reads from and writes to.
//!
//! `bytes::Bytes` is read from the front and `bytes::BytesMut` is appended to.
//! Neither is verified here: each function below states, without proof, what
//! the named method of the `bytes` crate does to the bytes that the buffer
//! holds.

use crate::le::{le_bytes, le_value};
use bytes::{Buf, BufMut};
use vstd::prelude::*;

verus! {

/// `bytes::Bytes`, an immutable buffer that is read from the front. Nothing
/// of its inside is known here but `unread`.
#[verifier::external_type_specification]
#[verifier::external_body]
pub struct ExBytes(bytes::Bytes);

/// `bytes::BytesMut`, a buffer that grows at its end. Nothing of its inside
/// is known here but `written`.
#[verifier::external_type_specification]
#[verifier::external_body]
pub struct ExBytesMut(bytes::BytesMut);

/// The bytes of a `bytes::Bytes` that have not been consumed yet, next one
/// first.
pub uninterp spec fn unread(buf: bytes::Bytes) -> Seq<u8>;

/// The bytes that a `bytes::BytesMut` holds, oldest first.
pub uninterp spec fn written(buf: bytes::BytesMut) -> Seq<u8>;

/// `Buf::remaining` of `Bytes`: the number of bytes not consumed yet.
#[verifier::external_body]
pub(crate) fn remaining(buf: &bytes::Bytes) -> (n: usize)
    ensures
        n == unread(*buf).len(),
{
    buf.remaining()
}

/// `Buf::chunk` of `Bytes`: the whole of what has not been consumed, as one
/// slice (a `Bytes` is contiguous).
#[verifier::external_body]
pub(crate) fn chunk(buf: &bytes::Bytes) -> (s: &[u8])
    ensures
        s@ == unread(*buf),
{
    buf.chunk()
}

/// `Buf::advance` of `Bytes`: drops the next `cnt` bytes. It panics past the
/// end, which the precondition excludes.
#[verifier::external_body]
pub(crate) fn advance(buf: &mut bytes::Bytes, cnt: usize)
    requires
        cnt <= unread(*old(buf)).len(),
    ensures
        unread(*final(buf)) == unread(*old(buf)).skip(cnt as int),
{
    buf.advance(cnt)
}

/// `Buf::get_u8`: hands out the next byte and consumes it. It panics on an
/// empty buffer, which the precondition excludes.
#[verifier::external_body]
pub(crate) fn get_u8(buf: &mut bytes::Bytes) -> (v: u8)
    requires
        unread(*old(buf)).len() >= 1,
    ensures
        v == unread(*old(buf))[0],
        unread(*final(buf)) == unread(*old(buf)).skip(1),
{
    buf.get_u8()
}

/// `Buf::get_u16_le`: consumes two bytes and reads them as a little-endian
/// word. It panics on fewer than two, which the precondition excludes.
#[verifier::external_body]
pub(crate) fn get_u16_le(buf: &mut bytes::Bytes) -> (v: u16)
    requires
        unread(*old(buf)).len() >= 2,
    ensures
        v as nat == le_value(unread(*old(buf)).take(2)),
        unread(*final(buf)) == unread(*old(buf)).skip(2),
{
    buf.get_u16_le()
}

/// `Buf::get_u32_le`: consumes four bytes and reads them as a little-endian
/// word. It panics on fewer than four, which the precondition excludes.
#[verifier::external_body]
pub(crate) fn get_u32_le(buf: &mut bytes::Bytes) -> (v: u32)
    requires
        unread(*old(buf)).len() >= 4,
    ensures
        v as nat == le_value(unread(*old(buf)).take(4)),
        unread(*final(buf)) == unread(*old(buf)).skip(4),
{
    buf.get_u32_le()
}

/// `Buf::get_u64_le`: consumes eight bytes and reads them as a little-endian
/// word. It panics on fewer than eight, which the precondition excludes.
#[verifier::external_body]
pub(crate) fn get_u64_le(buf: &mut bytes::Bytes) -> (v: u64)
    requires
        unread(*old(buf)).len() >= 8,
    ensures
        v as nat == le_value(unread(*old(buf)).take(8)),
        unread(*final(buf)) == unread(*old(buf)).skip(8),
{
    buf.get_u64_le()
}

/// `BufMut::put_u8` of `BytesMut`: appends one byte, growing the buffer as
/// needed.
#[verifier::external_body]
pub(crate) fn put_u8(buf: &mut bytes::BytesMut, v: u8)
    ensures
        written(*final(buf)) == written(*old(buf)).push(v),
{
    buf.put_u8(v)
}

/// `BufMut::put_u16_le` of `BytesMut`: appends the two bytes of `v`, least
/// significant first.
#[verifier::external_body]
pub(crate) fn put_u16_le(buf: &mut bytes::BytesMut, v: u16)
    ensures
        written(*final(buf)) == written(*old(buf)) + le_bytes(v as nat, 2),
{
    buf.put_u16_le(v)
}

/// `BufMut::put_u32_le` of `BytesMut`: appends the four bytes of `v`, least
/// significant first.
#[verifier::external_body]
pub(crate) fn put_u32_le(buf: &mut bytes::BytesMut, v: u32)
    ensures
        written(*final(buf)) == written(*old(buf)) + le_bytes(v as nat, 4),
{
    buf.put_u32_le(v)
}

/// `BufMut::put_u64_le` of `BytesMut`: appends the eight bytes of `v`, least
/// significant first.
#[verifier::external_body]
pub(crate) fn put_u64_le(buf: &mut bytes::BytesMut, v: u64)
    ensures
        written(*final(buf)) == written(*old(buf)) + le_bytes(v as nat, 8),
{
    buf.put_u64_le(v)
}

/// `BufMut::put_slice` of `BytesMut`: appends the bytes of `s` in order.
#[verifier::external_body]
pub(crate) fn put_slice(buf: &mut bytes::BytesMut, s: &[u8])
    ensures
        written(*final(buf)) == written(*old(buf)) + s@,
{
    buf.put_slice(s)
}

} // verus!
