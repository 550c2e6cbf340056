//! Shared byte strings: `bytes::Bytes` seen as a sequence of bytes.
use bytes::Bytes;
use vstd::prelude::*;

verus! {

/// The byte string type of the `bytes` crate.
#[verifier::external_type_specification]
#[verifier::external_body]
pub struct ExBytes(bytes::Bytes);

/// The bytes that a byte string holds.
pub uninterp spec fn octets(b: bytes::Bytes) -> Seq<u8>;

/// `Bytes::copy_from_slice`: a new byte string that holds the bytes of the
/// slice.
#[verifier::external_body]
pub(crate) fn copy_octets(data: &[u8]) -> (r: Bytes)
    ensures
        octets(r) == data@,
{
    Bytes::copy_from_slice(data)
}

/// `Bytes::as_ref`: the bytes of a byte string, borrowed.
#[verifier::external_body]
pub(crate) fn octet_slice(b: &Bytes) -> (r: &[u8])
    ensures
        r@ == octets(*b),
{
    b.as_ref()
}

/// `Bytes::clone`: the clone is the same value, and so holds the same bytes.
pub assume_specification[ <bytes::Bytes as Clone>::clone ](b: &bytes::Bytes) -> (r: bytes::Bytes)
    ensures
        r == *b,
;

} // verus!
