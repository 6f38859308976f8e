//! Data items of the virtual machine's stack and their byte encodings.

use vstd::prelude::*;
use curve25519_dalek::ristretto::CompressedRistretto;
use curve25519_dalek::scalar::Scalar;
use crate::encoding::write_bytes;
use crate::points::{
    compressed_bytes, point_from_slice, point_to_bytes, scalar_bytes, scalar_from_slice,
    scalar_to_bytes, canonical_scalar,
};

verus! {

/// Errors of the virtual machine's item conversions.
#[derive(Clone, Copy, Debug, PartialEq, Eq, Structural)]
pub enum VMError {
    /// Opaque data does not hold a well-formed encoding of the requested type.
    FormatError,
    /// The item is not a predicate.
    TypeNotPredicate,
    /// The item is not a commitment.
    TypeNotCommitment,
    /// The item is not a scalar.
    TypeNotScalar,
    /// The item is not of the requested program view.
    TypeNotProgram,
}

/// A predicate, known by its compressed point.
#[derive(Clone, Copy, Debug)]
pub enum Predicate {
    Opaque(CompressedRistretto),
}

/// A Pedersen commitment, known by its compressed point.
#[derive(Clone, Copy, Debug)]
pub enum Commitment {
    Closed(CompressedRistretto),
}

/// A scalar witness.
#[derive(Clone, Copy, Debug)]
pub enum ScalarWitness {
    Scalar(Scalar),
}

/// A data item.
#[derive(Clone, Debug)]
pub enum String {
    /// Opaque data item.
    Opaque(Vec<u8>),
    /// A predicate.
    Predicate(Box<Predicate>),
    /// A Pedersen commitment.
    Commitment(Box<Commitment>),
    /// A scalar witness.
    Scalar(Box<ScalarWitness>),
}

/// A value of an issued asset on the stack, known by its commitments.
#[derive(Clone, Copy, Debug)]
pub struct Value {
    /// Commitment to the value's quantity.
    pub qty: Commitment,
    /// Commitment to the value's flavor.
    pub flv: Commitment,
}

impl Default for String {
    /// The empty opaque data item.
    fn default() -> (r: String)
        ensures
            r matches String::Opaque(d) && d@.len() == 0,
    {
        String::Opaque(Vec::new())
    }
}

/// The bytes a data item encodes to.
pub open spec fn string_bytes(s: String) -> Seq<u8> {
    match s {
        String::Opaque(d) => d@,
        String::Predicate(p) => match *p {
            Predicate::Opaque(pt) => compressed_bytes(pt),
        },
        String::Commitment(c) => match *c {
            Commitment::Closed(pt) => compressed_bytes(pt),
        },
        String::Scalar(w) => match *w {
            ScalarWitness::Scalar(x) => scalar_bytes(x),
        },
    }
}

impl String {
    /// Encodes the data item.
    pub fn encode(&self, buf: &mut Vec<u8>)
        ensures
            final(buf)@ == old(buf)@ + string_bytes(*self),
    {
        let bytes = match self {
            String::Opaque(d) => d.clone(),
            String::Predicate(p) => match &**p {
                Predicate::Opaque(pt) => point_to_bytes(pt),
            },
            String::Commitment(c) => match &**c {
                Commitment::Closed(pt) => point_to_bytes(pt),
            },
            String::Scalar(w) => match &**w {
                ScalarWitness::Scalar(x) => scalar_to_bytes(x),
            },
        };
        write_bytes(&bytes, buf);
    }

    /// Converts the data item into its bytes: opaque data as it is, any other
    /// item encoded.
    pub fn to_bytes(self) -> (r: Vec<u8>)
        ensures
            r@ == string_bytes(self),
    {
        match self {
            String::Opaque(d) => d,
            _ => {
                let mut buf: Vec<u8> = Vec::new();
                self.encode(&mut buf);
                proof {
                    assert(buf@ =~= string_bytes(self));
                }
                buf
            },
        }
    }

    /// Downcasts the data item to a predicate: opaque data must be a 32-byte point.
    pub fn to_predicate(self) -> (r: Result<Predicate, VMError>)
        ensures
            match self {
                String::Opaque(d) => match r {
                    Ok(Predicate::Opaque(pt)) => d@.len() == 32 && compressed_bytes(pt) == d@,
                    Err(e) => d@.len() != 32 && e == VMError::FormatError,
                },
                String::Predicate(p) => r == Ok::<Predicate, VMError>(*p),
                _ => r == Err::<Predicate, VMError>(VMError::TypeNotPredicate),
            },
    {
        match self {
            String::Opaque(data) => match point_from_slice(data.as_slice()) {
                Some(point) => Ok(Predicate::Opaque(point)),
                None => Err(VMError::FormatError),
            },
            String::Predicate(p) => Ok(*p),
            _ => Err(VMError::TypeNotPredicate),
        }
    }

    /// Downcasts the data item to a commitment: opaque data must be a 32-byte point.
    pub fn to_commitment(self) -> (r: Result<Commitment, VMError>)
        ensures
            match self {
                String::Opaque(d) => match r {
                    Ok(Commitment::Closed(pt)) => d@.len() == 32 && compressed_bytes(pt) == d@,
                    Err(e) => d@.len() != 32 && e == VMError::FormatError,
                },
                String::Commitment(c) => r == Ok::<Commitment, VMError>(*c),
                _ => r == Err::<Commitment, VMError>(VMError::TypeNotCommitment),
            },
    {
        match self {
            String::Opaque(data) => match point_from_slice(data.as_slice()) {
                Some(point) => Ok(Commitment::Closed(point)),
                None => Err(VMError::FormatError),
            },
            String::Commitment(c) => Ok(*c),
            _ => Err(VMError::TypeNotCommitment),
        }
    }

    /// Downcasts the data item to a scalar: opaque data must be a canonical
    /// 32-byte scalar encoding.
    pub fn to_scalar(self) -> (r: Result<ScalarWitness, VMError>)
        ensures
            match self {
                String::Opaque(d) => match r {
                    Ok(ScalarWitness::Scalar(x)) => d@.len() == 32 && canonical_scalar(d@)
                        && scalar_bytes(x) == d@,
                    Err(e) => !(d@.len() == 32 && canonical_scalar(d@)) && e
                        == VMError::FormatError,
                },
                String::Scalar(w) => r == Ok::<ScalarWitness, VMError>(*w),
                _ => r == Err::<ScalarWitness, VMError>(VMError::TypeNotScalar),
            },
    {
        match self {
            String::Opaque(data) => match scalar_from_slice(data.as_slice()) {
                Some(x) => Ok(ScalarWitness::Scalar(x)),
                None => Err(VMError::FormatError),
            },
            String::Scalar(w) => Ok(*w),
            _ => Err(VMError::TypeNotScalar),
        }
    }
}

} // verus!
