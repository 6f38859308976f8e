//! What a pairwise cloak gate constrains, wire by wire. For a challenge `w` it
//! adds `L * R = 0`, where
//! `L = (A.q - C.q) + (A.f - C.f) w + (B.q - D.q) w^2 + (B.f - D.f) w^3` and
//! `R = C.q + (A.f - B.f) w + (D.q - A.q - B.q) w^2 + (D.f - A.f) w^3`.
//! `L` vanishes on a pass-through and, between two values of one flavor, `R`
//! vanishes on a merge.

use vstd::prelude::*;
use curve25519_dalek::scalar::Scalar;
use crate::value::{flavor_from_u64, scalar_of};

verus! {

/// The product of two scalars in the scalar field.
pub uninterp spec fn scalar_mul_of(a: Scalar, b: Scalar) -> Scalar;

/// The difference of two scalars in the scalar field.
pub uninterp spec fn scalar_sub_of(a: Scalar, b: Scalar) -> Scalar;

/// The negation of a scalar in the scalar field.
pub uninterp spec fn scalar_neg_of(a: Scalar) -> Scalar;

/// Relies on `Mul for &Scalar` of curve25519-dalek: the product, a function of the
/// two scalars alone.
#[verifier::external_body]
fn scalar_mul(a: &Scalar, b: &Scalar) -> (r: Scalar)
    ensures
        r == scalar_mul_of(*a, *b),
{
    a * b
}

/// Relies on `Sub for &Scalar` of curve25519-dalek: the difference, a function of
/// the two scalars alone.
#[verifier::external_body]
fn scalar_sub(a: &Scalar, b: &Scalar) -> (r: Scalar)
    ensures
        r == scalar_sub_of(*a, *b),
{
    a - b
}

/// Relies on `Neg for &Scalar` of curve25519-dalek: the negation, a function of
/// the scalar alone.
#[verifier::external_body]
fn scalar_neg(a: &Scalar) -> (r: Scalar)
    ensures
        r == scalar_neg_of(*a),
{
    -a
}

/// `w^2`.
pub open spec fn w2_of(w: Scalar) -> Scalar {
    scalar_mul_of(w, w)
}

/// `w^3`.
pub open spec fn w3_of(w: Scalar) -> Scalar {
    scalar_mul_of(w2_of(w), w)
}

/// The coefficients that the cloak gate puts on its wires `A.q, A.f, B.q, B.f,
/// C.q, C.f, D.q, D.f`, on the left side (`L`) and on the right side (`R`) of its
/// one multiplication, for the challenge `w`.
pub fn gate_coefficients(w: &Scalar) -> (r: (Vec<Scalar>, Vec<Scalar>))
    ensures
        r.0@ == seq![
            scalar_of(1),
            *w,
            w2_of(*w),
            w3_of(*w),
            scalar_neg_of(scalar_of(1)),
            scalar_neg_of(*w),
            scalar_neg_of(w2_of(*w)),
            scalar_neg_of(w3_of(*w)),
        ],
        r.1@ == seq![
            scalar_neg_of(w2_of(*w)),
            scalar_sub_of(*w, w3_of(*w)),
            scalar_neg_of(w2_of(*w)),
            scalar_neg_of(*w),
            scalar_of(1),
            scalar_of(0),
            w2_of(*w),
            w3_of(*w),
        ],
{
    let one = flavor_from_u64(1);
    let zero = flavor_from_u64(0);
    let w1 = *w;
    let w2 = scalar_mul(&w1, &w1);
    let w3 = scalar_mul(&w2, &w1);
    let neg_one = scalar_neg(&one);
    let neg_w1 = scalar_neg(&w1);
    let neg_w2 = scalar_neg(&w2);
    let neg_w3 = scalar_neg(&w3);
    let w1_minus_w3 = scalar_sub(&w1, &w3);
    // L = (A.q - C.q) + (A.f - C.f) w + (B.q - D.q) w^2 + (B.f - D.f) w^3
    let left = vec![one, w1, w2, w3, neg_one, neg_w1, neg_w2, neg_w3];
    // R = C.q + (A.f - B.f) w + (D.q - A.q - B.q) w^2 + (D.f - A.f) w^3
    let right = vec![neg_w2, w1_minus_w3, neg_w2, neg_w1, one, zero, w2, w3];
    proof {
        assert(left@ =~= seq![one, w1, w2, w3, neg_one, neg_w1, neg_w2, neg_w3]);
        assert(right@ =~= seq![neg_w2, w1_minus_w3, neg_w2, neg_w1, one, zero, w2, w3]);
    }
    (left, right)
}

} // verus!
