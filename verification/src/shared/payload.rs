//! The payloads, which are `bytes::Bytes` buffers.

use bytes::{Buf, Bytes};
use vstd::prelude::*;

verus! {

/// An immutable byte buffer that is cheap to clone.
#[verifier::external_type_specification]
#[verifier::external_body]
pub struct ExBytes(bytes::Bytes);

/// The bytes that a buffer holds.
pub uninterp spec fn payload_bytes(payload: Bytes) -> Seq<u8>;

/// The bytes of each payload of a sequence.
pub open spec fn payloads_bytes(payloads: Seq<Bytes>) -> Seq<Seq<u8>> {
    payloads.map_values(|p: Bytes| payload_bytes(p))
}

/// The natural number that `bytes` stand for, most significant byte first.
pub open spec fn big_endian(bytes: Seq<u8>) -> nat
    decreases bytes.len(),
{
    if bytes.len() == 0 {
        0
    } else {
        256 * big_endian(bytes.drop_last()) + bytes.last() as nat
    }
}

/// `<bytes::Bytes as Clone>::clone`: a buffer that holds the same bytes.
#[verifier::external_body]
pub(crate) fn clone_payload(payload: &Bytes) -> (r: Bytes)
    ensures
        payload_bytes(r) == payload_bytes(*payload),
{
    payload.clone()
}

/// `<bytes::Bytes as From<Vec<u8>>>::from`: a buffer that holds the bytes of
/// the vector.
#[verifier::external_body]
pub(crate) fn payload_from_vec(bytes: Vec<u8>) -> (r: Bytes)
    ensures
        payload_bytes(r) == bytes@,
{
    Bytes::from(bytes)
}

/// `<bytes::Bytes as Deref>::deref`: the bytes that the buffer holds, as a
/// slice.
#[verifier::external_body]
pub(crate) fn payload_as_slice(payload: &Bytes) -> (r: &[u8])
    ensures
        r@ == payload_bytes(*payload),
{
    payload
}

/// `bytes::Buf::get_uint` on a slice: the number that the first `count` bytes
/// stand for, most significant byte first. It panics when the slice is shorter,
/// or when `count` is more than eight.
#[verifier::external_body]
pub(crate) fn read_uint(bytes: &[u8], count: usize) -> (r: u64)
    requires
        count <= 8,
        count <= bytes@.len(),
    ensures
        r as nat == big_endian(bytes@.take(count as int)),
{
    let mut cursor = bytes;
    cursor.get_uint(count)
}

} // verus!
