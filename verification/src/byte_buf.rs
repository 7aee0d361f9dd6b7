//! Shared byte buffers.
use bytes::{Buf, Bytes};
use vstd::prelude::*;
use vstd::utf8::encode_utf8;

verus! {

/// `bytes::Bytes`, a shared buffer whose front can be cut off cheaply.
#[verifier::external_type_specification]
#[verifier::external_body]
pub struct ExBytes(bytes::Bytes);

/// The bytes that a buffer holds.
pub uninterp spec fn bytes_of(buffer: Bytes) -> Seq<u8>;

/// `Bytes::new`: an empty buffer.
#[verifier::external_body]
pub(crate) fn bytes_new() -> (r: Bytes)
    ensures
        bytes_of(r) == Seq::<u8>::empty(),
{
    Bytes::new()
}

/// `Bytes::from` on a vector: a buffer that holds what the vector held.
#[verifier::external_body]
pub(crate) fn bytes_from_vec(data: Vec<u8>) -> (r: Bytes)
    ensures
        bytes_of(r) == data@,
{
    Bytes::from(data)
}

/// `Bytes::from` on a string: a buffer that holds the string's UTF-8 form.
#[verifier::external_body]
pub(crate) fn bytes_from_string(text: String) -> (r: Bytes)
    ensures
        bytes_of(r) == encode_utf8(text@),
{
    Bytes::from(text)
}

/// `Bytes::len`: how many bytes the buffer holds.
#[verifier::external_body]
pub(crate) fn bytes_len(buffer: &Bytes) -> (r: usize)
    ensures
        r == bytes_of(*buffer).len(),
{
    buffer.len()
}

/// `Bytes::deref`: the bytes themselves.
#[verifier::external_body]
pub(crate) fn bytes_as_slice(buffer: &Bytes) -> (r: &[u8])
    ensures
        r@ == bytes_of(*buffer),
{
    &buffer[..]
}

/// `Buf::advance` on `Bytes`: cuts off the first `count` bytes.
#[verifier::external_body]
pub(crate) fn bytes_advance(buffer: &mut Bytes, count: usize)
    requires
        count <= bytes_of(*old(buffer)).len(),
    ensures
        bytes_of(*final(buffer)) == bytes_of(*old(buffer)).skip(count as int),
{
    buffer.advance(count);
}

} // verus!
