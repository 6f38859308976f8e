//! Values: a confidential amount of a confidential asset type.

use vstd::prelude::*;
use curve25519_dalek::scalar::Scalar;
use crate::encoding::le64;
use crate::points::scalar_bytes;

verus! {

/// A field element of the curve's scalar field, used as an asset flavor.
#[verifier::external_type_specification]
#[verifier::external_body]
pub struct ExScalar(Scalar);

/// The scalar that `Scalar::from(n)` builds from a `u64`.
pub uninterp spec fn scalar_of(n: u64) -> Scalar;

/// Relies on `curve25519_dalek`'s `From<u64> for Scalar`: the scalar whose bytes
/// are the eight little-endian bytes of the integer followed by 24 zero bytes.
#[verifier::external_body]
pub(crate) fn flavor_from_u64(n: u64) -> (r: Scalar)
    ensures
        r == scalar_of(n),
        scalar_bytes(r) == le64(n) + Seq::new(24, |i: int| 0u8),
{
    Scalar::from(n)
}

/// The zero flavor.
pub open spec fn zero_flavor() -> Scalar {
    scalar_of(0)
}

/// A confidential amount of a confidential asset type: a signed quantity and a flavor.
#[derive(Clone, Copy, Debug, PartialEq)]
pub struct Value {
    pub q: i128,
    pub f: Scalar,
}

impl Value {
    /// The value with quantity zero and the zero flavor.
    pub fn zero() -> (r: Value)
        ensures
            r.q == 0,
            r.f == zero_flavor(),
    {
        Value { q: 0, f: flavor_from_u64(0) }
    }
}

} // verus!
