//! Message payloads are `bytes::Bytes` buffers; this module states what the
//! library relies on of them.
use bytes::Bytes;
use vstd::prelude::*;

verus! {

#[verifier::external_type_specification]
#[verifier::external_body]
pub struct ExBytes(Bytes);

/// The bytes that a `Bytes` buffer holds.
pub uninterp spec fn bytes_view(b: Bytes) -> Seq<u8>;

/// Calls `<Bytes as From<Vec<u8>>>::from`: the new buffer holds exactly the
/// vector's bytes.
#[verifier::external_body]
pub(crate) fn bytes_from_vec(v: Vec<u8>) -> (b: Bytes)
    ensures
        bytes_view(b) == v@,
{
    Bytes::from(v)
}

/// Calls `<Bytes as Clone>::clone`: the clone holds the same bytes.
#[verifier::external_body]
pub(crate) fn bytes_clone(b: &Bytes) -> (c: Bytes)
    ensures
        bytes_view(c) == bytes_view(*b),
{
    b.clone()
}

/// Calls `<Vec<u8> as From<Bytes>>::from`: the vector holds the buffer's bytes.
#[verifier::external_body]
pub(crate) fn bytes_into_vec(b: Bytes) -> (v: Vec<u8>)
    ensures
        v@ == bytes_view(b),
{
    Vec::from(b)
}

} // verus!
