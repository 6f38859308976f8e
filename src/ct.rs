//! Constant-time comparison and selection, through `subtle`.

use vstd::prelude::*;
use curve25519_dalek::scalar::Scalar;
use subtle::{Choice, ConditionallySelectable, ConstantTimeEq};

verus! {

/// Relies on `Scalar::ct_eq` (`subtle::ConstantTimeEq`): a mask that is set exactly
/// when the two scalars hold the same bytes, read back as a `bool`.
#[verifier::external_body]
pub(crate) fn flavors_equal(a: &Scalar, b: &Scalar) -> (r: bool)
    ensures
        r == (*a == *b),
{
    bool::from(a.ct_eq(b))
}

/// Relies on `Scalar::conditional_swap` (`subtle::ConditionallySelectable`):
/// the two scalars trade places when the mask is set, and stay otherwise.
#[verifier::external_body]
pub(crate) fn swap_flavors(a: &mut Scalar, b: &mut Scalar, c: bool)
    ensures
        c ==> *final(a) == *old(b) && *final(b) == *old(a),
        !c ==> *final(a) == *old(a) && *final(b) == *old(b),
{
    Scalar::conditional_swap(a, b, Choice::from(c as u8))
}

/// Relies on `i128::conditional_swap` (`subtle::ConditionallySelectable`):
/// the two integers trade places when the mask is set, and stay otherwise.
#[verifier::external_body]
pub(crate) fn swap_quantities(a: &mut i128, b: &mut i128, c: bool)
    ensures
        c ==> *final(a) == *old(b) && *final(b) == *old(a),
        !c ==> *final(a) == *old(a) && *final(b) == *old(b),
{
    i128::conditional_swap(a, b, Choice::from(c as u8))
}

/// Relies on `Scalar::conditional_assign` (`subtle::ConditionallySelectable`):
/// the target takes the new scalar when the mask is set, and stays otherwise.
#[verifier::external_body]
pub(crate) fn assign_flavor(x: &mut Scalar, v: &Scalar, c: bool)
    ensures
        *final(x) == if c { *v } else { *old(x) },
{
    x.conditional_assign(v, Choice::from(c as u8))
}

/// Relies on `i128::conditional_assign` (`subtle::ConditionallySelectable`):
/// the target takes the new integer when the mask is set, and stays otherwise.
#[verifier::external_body]
pub(crate) fn assign_quantity(x: &mut i128, v: &i128, c: bool)
    ensures
        *final(x) == if c { *v } else { *old(x) },
{
    x.conditional_assign(v, Choice::from(c as u8))
}

} // verus!
