//! Bytes to be sent to a terminal.
use bytes::Bytes;
use vstd::prelude::*;
use vstd::utf8::encode_utf8;

verus! {

/// `bytes::Bytes`, a run of bytes that is cheap to hand on.
#[verifier::external_type_specification]
#[verifier::external_body]
pub struct ExBytes(Bytes);

/// The bytes that a `bytes::Bytes` holds.
pub uninterp spec fn bytes_of(bytes: Bytes) -> Seq<u8>;

/// `bytes::Bytes::from` on a `String` takes over the bytes of the string, which
/// are its characters in UTF-8, all of them and in order.
#[verifier::external_body]
pub(crate) fn bytes_from_string(text: String) -> (bytes: Bytes)
    ensures
        bytes_of(bytes) == encode_utf8(text@),
{
    Bytes::from(text)
}

} // verus!
