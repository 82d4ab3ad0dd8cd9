//! Byte strings that are shared without copying.
//!
//! The types and operations of the `bytes` crate that the transport relies on.

use bytes::{Bytes, BytesMut};
use vstd::prelude::*;

verus! {

/// Declares `bytes::Bytes`, an immutable, cheaply cloned byte string.
#[verifier::external_type_specification]
#[verifier::external_body]
pub struct ExBytes(bytes::Bytes);

/// Declares `bytes::BytesMut`, a growable byte buffer.
#[verifier::external_type_specification]
#[verifier::external_body]
pub struct ExBytesMut(bytes::BytesMut);

/// The bytes that a `Bytes` holds.
pub uninterp spec fn contents(b: bytes::Bytes) -> Seq<u8>;

/// The bytes that a `BytesMut` holds.
pub uninterp spec fn gathered(b: bytes::BytesMut) -> Seq<u8>;

/// `Bytes::from(Vec<u8>)`: the vector's bytes, in order.
#[verifier::external_body]
pub(crate) fn bytes_from_vec(v: Vec<u8>) -> (r: Bytes)
    ensures
        contents(r) == v@,
{
    Bytes::from(v)
}

/// `Bytes::len`: how many bytes there are.
#[verifier::external_body]
pub(crate) fn bytes_len(b: &Bytes) -> (r: usize)
    ensures
        r == contents(*b).len(),
{
    b.len()
}

/// `Bytes::as_ref`: the bytes as a slice.
#[verifier::external_body]
pub(crate) fn bytes_as_slice(b: &Bytes) -> (r: &[u8])
    ensures
        r@ == contents(*b),
{
    b.as_ref()
}

/// `Bytes::clone`: a second handle on the same bytes.
#[verifier::external_body]
pub(crate) fn bytes_clone(b: &Bytes) -> (r: Bytes)
    ensures
        contents(r) == contents(*b),
{
    b.clone()
}

/// `BytesMut::with_capacity`: an empty buffer with room for `capacity` bytes.
/// The call panics where no vector of that size can exist.
#[verifier::external_body]
pub(crate) fn buffer_with_capacity(capacity: usize) -> (r: BytesMut)
    requires
        capacity <= isize::MAX,
    ensures
        gathered(r) == Seq::<u8>::empty(),
{
    BytesMut::with_capacity(capacity)
}

/// `BytesMut::extend_from_slice`: appends the slice. The call panics where the
/// result would be larger than a vector can be.
#[verifier::external_body]
pub(crate) fn buffer_extend(b: &mut BytesMut, data: &[u8])
    requires
        gathered(*old(b)).len() + data@.len() <= isize::MAX,
    ensures
        gathered(*final(b)) == gathered(*old(b)) + data@,
{
    b.extend_from_slice(data)
}

/// `BytesMut::freeze`: the gathered bytes as an immutable string.
#[verifier::external_body]
pub(crate) fn buffer_freeze(b: BytesMut) -> (r: Bytes)
    ensures
        contents(r) == gathered(b),
{
    b.freeze()
}

} // verus!
