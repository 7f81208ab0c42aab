//! The raw payload store used at the transport layer: an immutable,
//! cheaply shareable byte container from the `bytes` crate, seen by the
//! contracts as the sequence of bytes it holds.

use vstd::prelude::*;
use bytes::Bytes;

verus! {

#[verifier::external_type_specification]
#[verifier::external_body]
pub struct ExBytes(Bytes);

/// The bytes held by a `Bytes` value, in order.
pub uninterp spec fn bytes_seq(b: Bytes) -> Seq<u8>;

/// Relies on `Bytes::new`: creates a new empty `Bytes`.
#[verifier::external_body]
pub(crate) fn bytes_new() -> (r: Bytes)
    ensures
        bytes_seq(r) == Seq::<u8>::empty(),
{
    Bytes::new()
}

/// Relies on `From<Vec<u8>> for Bytes`: the result holds exactly the
/// vector's bytes, in order.
#[verifier::external_body]
pub(crate) fn bytes_from_vec(v: Vec<u8>) -> (r: Bytes)
    ensures
        bytes_seq(r) == v@,
{
    Bytes::from(v)
}

/// Relies on `Deref<Target = [u8]> for Bytes`: the slice holds exactly
/// the container's bytes, in order.
#[verifier::external_body]
pub(crate) fn bytes_as_slice(b: &Bytes) -> (r: &[u8])
    ensures
        r@ == bytes_seq(*b),
{
    &b[..]
}

} // verus!
