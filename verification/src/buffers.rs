//! The byte buffers of the `bytes` crate, as the RESP codec uses them.

use vstd::prelude::*;
use bytes::{Bytes, BytesMut};

verus! {

#[verifier::external_type_specification]
#[verifier::external_body]
pub struct ExBytes(Bytes);

#[verifier::external_type_specification]
#[verifier::external_body]
pub struct ExBytesMut(BytesMut);

/// The bytes that a `Bytes` buffer holds.
pub uninterp spec fn bytes_view(b: Bytes) -> Seq<u8>;

/// The bytes that a `BytesMut` buffer holds.
pub uninterp spec fn bytes_mut_view(b: BytesMut) -> Seq<u8>;

/// `Bytes::from(Vec<u8>)`: the buffer takes over the vector and holds
/// exactly its bytes.
#[verifier::external_body]
pub(crate) fn bytes_from_vec(v: Vec<u8>) -> (r: Bytes)
    ensures
        bytes_view(r) == v@,
{
    Bytes::from(v)
}

/// `<Bytes as AsRef<[u8]>>::as_ref`: the held bytes as a slice.
#[verifier::external_body]
pub(crate) fn bytes_as_slice(b: &Bytes) -> (r: &[u8])
    ensures
        r@ == bytes_view(*b),
{
    b.as_ref()
}

/// `BytesMut::from(&[u8])`: a new buffer holding a copy of the slice.
#[verifier::external_body]
pub(crate) fn bytes_mut_from_slice(s: &[u8]) -> (r: BytesMut)
    ensures
        bytes_mut_view(r) == s@,
{
    BytesMut::from(s)
}

} // verus!
