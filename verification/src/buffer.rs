//! The byte buffer type that payloads travel in.
use vstd::prelude::*;

verus! {

/// `bytes::Bytes` is an immutable, cheaply clonable byte buffer.
#[verifier::external_type_specification]
#[verifier::external_body]
pub struct ExBytes(bytes::Bytes);

/// The bytes that a `bytes::Bytes` buffer holds, in order.
pub uninterp spec fn bytes_contents(b: bytes::Bytes) -> Seq<u8>;

/// Wraps `<bytes::Bytes as From<Vec<u8>>>::from`: the buffer holds exactly the
/// vector's bytes.
#[verifier::external_body]
pub(crate) fn bytes_from_vec(v: Vec<u8>) -> (b: bytes::Bytes)
    ensures
        bytes_contents(b) == v@,
{
    bytes::Bytes::from(v)
}

/// Wraps `bytes::Bytes::len`: the number of bytes the buffer holds.
#[verifier::external_body]
pub(crate) fn bytes_len(b: &bytes::Bytes) -> (n: usize)
    ensures
        n == bytes_contents(*b).len(),
{
    b.len()
}

/// Wraps `<bytes::Bytes as AsRef<[u8]>>::as_ref`: a slice over the buffer's bytes.
#[verifier::external_body]
pub(crate) fn bytes_as_slice(b: &bytes::Bytes) -> (s: &[u8])
    ensures
        s@ == bytes_contents(*b),
{
    b.as_ref()
}

/// `<bytes::Bytes as Clone>::clone` gives a handle to the same bytes; the
/// derived `Clone` of every type that carries a payload calls it.
pub assume_specification[ <bytes::Bytes as Clone>::clone ](b: &bytes::Bytes) -> (c: bytes::Bytes)
    ensures
        bytes_contents(c) == bytes_contents(*b),
;

} // verus!
