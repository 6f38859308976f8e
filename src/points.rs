//! Compressed points and scalars, held as curve25519-dalek's own types and read
//! from or written to their 32-byte encodings.

use vstd::prelude::*;
use vstd::arithmetic::power2::pow2;
use curve25519_dalek::ristretto::CompressedRistretto;
use curve25519_dalek::scalar::Scalar;

verus! {

/// A Ristretto point in compressed form.
#[verifier::external_type_specification]
#[verifier::external_body]
pub struct ExCompressedRistretto(CompressedRistretto);

/// The 32 bytes of a compressed point.
pub uninterp spec fn compressed_bytes(p: CompressedRistretto) -> Seq<u8>;

/// The 32-byte little-endian encoding of a scalar.
pub uninterp spec fn scalar_bytes(s: Scalar) -> Seq<u8>;

/// The integer that bytes encode, little-endian.
pub open spec fn le_value(b: Seq<u8>) -> nat
    decreases b.len(),
{
    if b.len() == 0 {
        0
    } else {
        b[0] as nat + 256 * le_value(b.drop_first())
    }
}

/// The order of the prime-order group: `2^252 + 27742317777372353535851937790883648493`.
pub open spec fn group_order() -> nat {
    pow2(252) + 27742317777372353535851937790883648493
}

/// Whether 32 bytes are the canonical encoding of a scalar: the high bit is clear
/// and the little-endian integer is below the group order.
pub open spec fn canonical_scalar(b: Seq<u8>) -> bool {
    &&& b.len() == 32
    &&& b[31] < 128
    &&& le_value(b) < group_order()
}

/// Relies on `CompressedRistretto::from_slice`: a point is made from exactly 32
/// bytes, which it keeps; any other length is refused.
#[verifier::external_body]
pub(crate) fn point_from_slice(data: &[u8]) -> (r: Option<CompressedRistretto>)
    ensures
        (data@.len() == 32) == r is Some,
        r matches Some(p) ==> compressed_bytes(p) == data@,
{
    CompressedRistretto::from_slice(data).ok()
}

/// Relies on `CompressedRistretto::as_bytes`: the 32 bytes the point holds.
#[verifier::external_body]
pub(crate) fn point_to_bytes(p: &CompressedRistretto) -> (r: Vec<u8>)
    ensures
        r@ == compressed_bytes(*p),
        r@.len() == 32,
{
    p.as_bytes().to_vec()
}

/// Relies on `Scalar::from_canonical_bytes`: 32 bytes give a scalar with exactly
/// those bytes when they are a canonical encoding; any other length is refused.
#[verifier::external_body]
pub(crate) fn scalar_from_slice(data: &[u8]) -> (r: Option<Scalar>)
    ensures
        (data@.len() == 32 && canonical_scalar(data@)) == r is Some,
        r matches Some(s) ==> scalar_bytes(s) == data@,
{
    match <[u8; 32]>::try_from(data) {
        Ok(bytes) => Option::from(Scalar::from_canonical_bytes(bytes)),
        Err(_) => None,
    }
}

/// Relies on `Scalar::to_bytes`: the scalar's 32-byte encoding.
#[verifier::external_body]
pub(crate) fn scalar_to_bytes(s: &Scalar) -> (r: Vec<u8>)
    ensures
        r@ == scalar_bytes(*s),
        r@.len() == 32,
{
    s.to_bytes().to_vec()
}

} // verus!
