//! The output buffer: a trusted view of bytes::BytesMut, the growable byte
//! buffer that encoded records are appended to.

use vstd::prelude::*;
use bytes::{BufMut, BytesMut};

verus! {

#[verifier::external_type_specification]
#[verifier::external_body]
pub struct ExBytesMut(BytesMut);

/// The bytes a BytesMut holds, in order.
pub uninterp spec fn buf_bytes(b: BytesMut) -> Seq<u8>;

/// Relies on bytes::BytesMut::reserve: it only grows the capacity and leaves
/// the contents unchanged.
#[verifier::external_body]
pub fn buf_reserve(out: &mut BytesMut, additional: usize)
    ensures
        buf_bytes(*final(out)) == buf_bytes(*old(out)),
{
    out.reserve(additional);
}

/// Relies on bytes::BufMut::put_slice for BytesMut: it appends the slice's
/// bytes in order, growing the buffer as a Vec grows.
#[verifier::external_body]
pub fn buf_put_slice(out: &mut BytesMut, v: &[u8])
    ensures
        buf_bytes(*final(out)) == buf_bytes(*old(out)) + v@,
{
    out.put_slice(v);
}

} // verus!
