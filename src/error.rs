//! The ways in which decoding an untrusted buffer can fail.

use vstd::prelude::*;

verus! {

/// Every failure is terminal for the request that met it.
#[derive(Clone, Copy, Debug, PartialEq, Eq, Structural)]
pub enum ApiError {
    /// A declared length exceeds the bytes that remain.
    InputTooShort,
    /// A modulus, group order or non-residue is zero.
    UnexpectedZero,
    /// A modulus is wider than the supported limb width.
    UnsupportedModulus,
    /// A field element is not below the modulus.
    NotCanonical,
    /// A degree tag does not match, or Frobenius coefficients cannot be derived.
    UnknownParameter,
    /// The element offered as a quadratic non-residue is a residue.
    NotANonResidue,
    /// A scalar is not below the group order.
    ScalarOutOfRange,
    /// A value does not fit in the requested number of bytes.
    ValueTooWide,
}

} // verus!
