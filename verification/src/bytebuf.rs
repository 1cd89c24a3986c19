//! Trusted bindings for the growable byte buffer of the `bytes` crate.
//! Every verified fact about a buffer's contents goes through `buf_bytes`.
use vstd::prelude::*;

use bytes::BytesMut;

verus! {

#[verifier::external_type_specification]
#[verifier::external_body]
pub struct ExBytesMut(BytesMut);

/// The bytes a buffer currently holds, in order.
pub uninterp spec fn buf_bytes(b: BytesMut) -> Seq<u8>;

/// Relies on BytesMut::new: a fresh buffer holds no bytes.
#[verifier::external_body]
pub fn buf_new() -> (r: BytesMut)
    ensures
        buf_bytes(r) == Seq::<u8>::empty(),
{
    BytesMut::new()
}

/// Relies on BytesMut::len: the number of bytes held.
#[verifier::external_body]
pub fn buf_len(b: &BytesMut) -> (r: usize)
    ensures
        r == buf_bytes(*b).len(),
{
    b.len()
}

/// Relies on Deref<Target = [u8]> for BytesMut: a view of all bytes held.
#[verifier::external_body]
pub fn buf_slice(b: &BytesMut) -> (r: &[u8])
    ensures
        r@ == buf_bytes(*b),
{
    b
}

/// Relies on BytesMut::extend_from_slice: appends the slice's bytes.
#[verifier::external_body]
pub fn buf_extend(b: &mut BytesMut, s: &[u8])
    ensures
        buf_bytes(*final(b)) == buf_bytes(*old(b)) + s@,
{
    b.extend_from_slice(s);
}

/// Relies on BytesMut::clear: afterwards the buffer holds no bytes.
#[verifier::external_body]
pub fn buf_clear(b: &mut BytesMut)
    ensures
        buf_bytes(*final(b)) == Seq::<u8>::empty(),
{
    b.clear();
}

} // verus!
