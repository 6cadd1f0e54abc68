//! Arbitrary-precision arithmetic on big-endian byte strings, done by
//! `num_bigint`. Each item reads its arguments with `BigUint::from_bytes_be`
//! and, where it returns a number, writes it back with `BigUint::to_bytes_be`.

use crate::num::{be_value, limbs_value};
use num_bigint::BigUint;
use num_traits::Zero;
use vstd::arithmetic::power::pow;
use vstd::prelude::*;

verus! {

/// Relies on `Zero::is_zero` for `BigUint`: true exactly for the number zero.
#[verifier::external_body]
pub(crate) fn big_is_zero(a: &[u8]) -> (r: bool)
    ensures
        r == (be_value(a@) == 0),
{
    BigUint::from_bytes_be(a).is_zero()
}

/// Relies on `Ord` for `BigUint`: the numeric order.
#[verifier::external_body]
pub(crate) fn big_ge(a: &[u8], b: &[u8]) -> (r: bool)
    ensures
        r == (be_value(a@) >= be_value(b@)),
{
    BigUint::from_bytes_be(a) >= BigUint::from_bytes_be(b)
}

/// Relies on `BigUint::to_u64_digits`: the 64-bit digits, least significant first.
#[verifier::external_body]
pub(crate) fn big_to_limbs(a: &[u8]) -> (r: Vec<u64>)
    ensures
        limbs_value(r@) == be_value(a@),
{
    BigUint::from_bytes_be(a).to_u64_digits()
}

/// Relies on `Sub` for `BigUint`, which panics when the result would be negative.
#[verifier::external_body]
pub(crate) fn big_sub(a: &[u8], b: &[u8]) -> (r: Vec<u8>)
    requires
        be_value(a@) >= be_value(b@),
    ensures
        be_value(r@) == be_value(a@) - be_value(b@),
{
    (BigUint::from_bytes_be(a) - BigUint::from_bytes_be(b)).to_bytes_be()
}

/// Relies on `Mul` for `BigUint`.
#[verifier::external_body]
pub(crate) fn big_mul(a: &[u8], b: &[u8]) -> (r: Vec<u8>)
    ensures
        be_value(r@) == be_value(a@) * be_value(b@),
{
    (BigUint::from_bytes_be(a) * BigUint::from_bytes_be(b)).to_bytes_be()
}

/// Relies on `Div` for `BigUint`: truncating division, which panics on a zero divisor.
#[verifier::external_body]
pub(crate) fn big_div(a: &[u8], d: &[u8]) -> (r: Vec<u8>)
    requires
        be_value(d@) != 0,
    ensures
        be_value(r@) == be_value(a@) / be_value(d@),
{
    (BigUint::from_bytes_be(a) / BigUint::from_bytes_be(d)).to_bytes_be()
}

/// Relies on `Rem` for `BigUint`, which panics on a zero divisor.
#[verifier::external_body]
pub(crate) fn big_rem(a: &[u8], d: &[u8]) -> (r: Vec<u8>)
    requires
        be_value(d@) != 0,
    ensures
        be_value(r@) == be_value(a@) % be_value(d@),
{
    (BigUint::from_bytes_be(a) % BigUint::from_bytes_be(d)).to_bytes_be()
}

/// Relies on `BigUint::modpow`: `(base ^ exponent) % modulus`, which panics on
/// a zero modulus. A modulus of one is left out too: for a zero exponent the
/// source returns one on some paths without reducing it.
#[verifier::external_body]
pub(crate) fn big_modpow(base: &[u8], exponent: &[u8], modulus: &[u8]) -> (r: Vec<u8>)
    requires
        be_value(modulus@) > 1,
    ensures
        be_value(r@) == pow(be_value(base@) as int, be_value(exponent@)) % (be_value(
            modulus@,
        ) as int),
{
    BigUint::from_bytes_be(base).modpow(&BigUint::from_bytes_be(exponent), &BigUint::from_bytes_be(modulus)).to_bytes_be()
}

} // verus!
