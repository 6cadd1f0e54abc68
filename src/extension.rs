//! Quadratic and cubic extensions of a prime field: the degree tag, the
//! non-residue and its check, and the Frobenius coefficients.

use crate::bignum::{big_div, big_ge, big_is_zero, big_modpow, big_mul, big_rem, big_sub};
use crate::error::ApiError;
use crate::field::{decode_fp, fp_decode, Fp, PrimeField};
use crate::num::{be_value, fit_to_width, lemma_be_value_bound, lemma_be_value_byte};
use vstd::arithmetic::div_mod::lemma_mod_bound;
use vstd::arithmetic::power::pow;
use vstd::prelude::*;

verus! {

/// Bytes that hold an extension degree.
pub const EXTENSION_DEGREE_ENCODING_LENGTH: usize = 1;

pub const EXTENSION_DEGREE_2: u8 = 2;

pub const EXTENSION_DEGREE_3: u8 = 3;

/// `r^e mod p`.
pub open spec fn power_mod(r: nat, e: nat, p: nat) -> int {
    pow(r as int, e) % (p as int)
}

/// Euler's criterion: `r^((p - 1) / 2) mod p`.
pub open spec fn legendre_power(r: nat, p: nat) -> int {
    power_mod(r, ((p - 1) / 2) as nat, p)
}

/// `r` is a quadratic residue or zero by Euler's criterion.
pub open spec fn residue_or_zero(r: nat, p: nat) -> bool {
    legendre_power(r, p) == 0 || legendre_power(r, p) == 1
}

/// The Frobenius coefficients of the quadratic extension by `r`: `r^((p^k - 1) / 2)`
/// for `k` in `0..2`.
pub open spec fn fp2_frobenius(r: nat, p: nat) -> Seq<int> {
    seq![power_mod(r, 0, p), power_mod(r, ((p - 1) / 2) as nat, p)]
}

/// The first row of Frobenius coefficients of the cubic extension by `r`:
/// `r^((p^k - 1) / 3)` for `k` in `0..3`.
pub open spec fn fp3_frobenius_c1(r: nat, p: nat) -> Seq<int> {
    seq![
        power_mod(r, 0, p),
        power_mod(r, ((p - 1) / 3) as nat, p),
        power_mod(r, ((p * p - 1) / 3) as nat, p),
    ]
}

/// The second row: `r^(2 (p^k - 1) / 3)` for `k` in `0..3`.
pub open spec fn fp3_frobenius_c2(r: nat, p: nat) -> Seq<int> {
    seq![
        power_mod(r, 0, p),
        power_mod(r, ((2 * (p - 1)) / 3) as nat, p),
        power_mod(r, ((2 * (p * p - 1)) / 3) as nat, p),
    ]
}

/// What building an extension of degree `degree` from `s` gives, before the
/// Frobenius step: the non-residue and the rest. A quadratic extension also
/// checks the non-residue by Euler's criterion.
pub open spec fn extension_result(s: Seq<u8>, degree: u8, n: nat, p: nat) -> Result<
    (nat, Seq<u8>),
    ApiError,
> {
    if s.len() < 1 {
        Err(ApiError::InputTooShort)
    } else if s[0] != degree {
        Err(ApiError::UnknownParameter)
    } else {
        match fp_decode(s.skip(1), n, p) {
            Err(e) => Err(e),
            Ok((enc, rest)) => if be_value(enc) == 0 {
                Err(ApiError::UnexpectedZero)
            } else if degree == 2 && residue_or_zero(be_value(enc), p) {
                Err(ApiError::NotANonResidue)
            } else if (p - 1) % (degree as int) != 0 {
                Err(ApiError::UnknownParameter)
            } else {
                Ok((be_value(enc), rest))
            },
        }
    }
}

/// Coefficients that are elements of `field` with the given values.
pub open spec fn coeffs_are(c: Seq<Fp>, values: Seq<int>, field: &PrimeField) -> bool {
    &&& c.len() == values.len()
    &&& forall|i: int|
        0 <= i < c.len() ==> c[i].value() == values[i] && c[i].wf_in(field) && c[i].repr@.len()
            == field.modulus_len
}

/// A quadratic extension of a prime field.
pub struct Extension2<'a> {
    pub base: &'a PrimeField,
    pub non_residue: Fp,
    pub frobenius_coeffs_c1: Vec<Fp>,
}

impl<'a> Extension2<'a> {
    pub open spec fn wf(&self) -> bool {
        &&& self.base.wf()
        &&& self.non_residue.wf_in(self.base)
        &&& coeffs_are(
            self.frobenius_coeffs_c1@,
            fp2_frobenius(self.non_residue.value(), self.base.modulus_value()),
            self.base,
        )
    }
}

/// A cubic extension of a prime field.
pub struct Extension3<'a> {
    pub base: &'a PrimeField,
    pub non_residue: Fp,
    pub frobenius_coeffs_c1: Vec<Fp>,
    pub frobenius_coeffs_c2: Vec<Fp>,
}

impl<'a> Extension3<'a> {
    pub open spec fn wf(&self) -> bool {
        &&& self.base.wf()
        &&& self.non_residue.wf_in(self.base)
        &&& coeffs_are(
            self.frobenius_coeffs_c1@,
            fp3_frobenius_c1(self.non_residue.value(), self.base.modulus_value()),
            self.base,
        )
        &&& coeffs_are(
            self.frobenius_coeffs_c2@,
            fp3_frobenius_c2(self.non_residue.value(), self.base.modulus_value()),
            self.base,
        )
    }
}

/// `r^e mod p` as an element of `field`, in `modulus_len` bytes.
fn power_element(r: &Fp, exponent: &[u8], field: &PrimeField) -> (x: Fp)
    requires
        field.wf(),
        field.modulus_value() > 1,
    ensures
        x.value() == power_mod(r.value(), be_value(exponent@), field.modulus_value()),
        x.wf_in(field),
        x.repr@.len() == field.modulus_len,
{
    let v = big_modpow(r.repr.as_slice(), exponent, field.modulus.as_slice());
    proof {
        lemma_mod_bound(
            pow(r.value() as int, be_value(exponent@)),
            field.modulus_value() as int,
        );
        lemma_be_value_bound(field.modulus@);
        crate::num::lemma_fixed_be_value(be_value(v@), field.modulus_len as nat);
    }
    match fit_to_width(v.as_slice(), field.modulus_len) {
        Some(b) => Fp { repr: b },
        None => {
            proof {
                assert(false);
            }
            Fp { repr: Vec::new() }
        },
    }
}

/// Reads the degree tag and the non-residue of an extension of the given degree.
fn read_degree_and_non_residue<'a>(
    bytes: &'a [u8],
    degree: u8,
    field_byte_len: usize,
    base_field: &PrimeField,
) -> (r: Result<(Fp, &'a [u8]), ApiError>)
    requires
        base_field.wf(),
    ensures
        r is Err ==> r == Err::<(Fp, &'a [u8]), _>(
            extension_result(bytes@, degree, field_byte_len as nat, base_field.modulus_value())->Err_0,
        ) && extension_result(bytes@, degree, field_byte_len as nat, base_field.modulus_value()) is Err,
        r matches Ok((x, rest)) ==> bytes@.len() >= 1 && bytes@[0] == degree && fp_decode(
            bytes@.skip(1),
            field_byte_len as nat,
            base_field.modulus_value(),
        ) == Ok::<_, ApiError>((x.repr@, rest@)) && x.value() != 0 && x.wf_in(base_field),
{
    if bytes.len() < EXTENSION_DEGREE_ENCODING_LENGTH {
        return Err(ApiError::InputTooShort);
    }
    let (extension_degree, rest) = bytes.split_at(EXTENSION_DEGREE_ENCODING_LENGTH);
    if extension_degree[0] != degree {
        return Err(ApiError::UnknownParameter);
    }
    proof {
        assert(rest@ =~= bytes@.skip(1));
    }
    let (fp_non_residue, rest) = decode_fp(rest, field_byte_len, base_field)?;
    if fp_non_residue.is_zero() {
        return Err(ApiError::UnexpectedZero);
    }
    Ok((fp_non_residue, rest))
}

/// Builds a quadratic extension from `[degree tag 2][non-residue]`. The
/// non-residue must be nonzero and not a quadratic residue by Euler's
/// criterion, and `modulus - 1` must be even for the Frobenius coefficients.
pub fn create_fp2_extension<'a>(
    bytes: &'a [u8],
    modulus: &[u8],
    field_byte_len: usize,
    base_field: &'a PrimeField,
) -> (r: Result<(Extension2<'a>, &'a [u8]), ApiError>)
    requires
        base_field.wf(),
        modulus@ == base_field.modulus@,
    ensures
        match r {
            Ok((ext, rest)) => extension_result(
                bytes@,
                2,
                field_byte_len as nat,
                base_field.modulus_value(),
            ) == Ok::<_, ApiError>((ext.non_residue.value(), rest@)) && ext.wf() && ext.base
                == base_field && ext.frobenius_coeffs_c1@.len() == 2,
            Err(e) => extension_result(bytes@, 2, field_byte_len as nat, base_field.modulus_value())
                == Err::<(nat, Seq<u8>), _>(e),
        },
{
    let (fp_non_residue, rest) = read_degree_and_non_residue(
        bytes,
        EXTENSION_DEGREE_2,
        field_byte_len,
        base_field,
    )?;
    let ghost p = base_field.modulus_value();
    let one = vec![1u8];
    let two = vec![2u8];
    proof {
        lemma_be_value_byte(1);
        lemma_be_value_byte(2);
        assert(one@ =~= seq![1u8]);
        assert(two@ =~= seq![2u8]);
    }
    let modulus_minus_one = big_sub(modulus, one.as_slice());
    let half = big_div(modulus_minus_one.as_slice(), two.as_slice());
    let legendre = power_element(&fp_non_residue, half.as_slice(), base_field);
    if !big_ge(legendre.repr.as_slice(), two.as_slice()) {
        return Err(ApiError::NotANonResidue);
    }
    let rem = big_rem(modulus_minus_one.as_slice(), two.as_slice());
    if !big_is_zero(rem.as_slice()) {
        return Err(ApiError::UnknownParameter);
    }
    let zero: Vec<u8> = Vec::new();
    let f0 = power_element(&fp_non_residue, zero.as_slice(), base_field);
    let f1 = power_element(&fp_non_residue, half.as_slice(), base_field);
    let mut coeffs: Vec<Fp> = Vec::new();
    coeffs.push(f0);
    coeffs.push(f1);
    let ext = Extension2 { base: base_field, non_residue: fp_non_residue, frobenius_coeffs_c1: coeffs };
    Ok((ext, rest))
}

/// Builds a cubic extension from `[degree tag 3][non-residue]`. The
/// non-residue must be nonzero, and `modulus - 1` must be divisible by three
/// for the Frobenius coefficients.
pub fn create_fp3_extension<'a>(
    bytes: &'a [u8],
    modulus: &[u8],
    field_byte_len: usize,
    base_field: &'a PrimeField,
) -> (r: Result<(Extension3<'a>, &'a [u8]), ApiError>)
    requires
        base_field.wf(),
        modulus@ == base_field.modulus@,
    ensures
        match r {
            Ok((ext, rest)) => extension_result(
                bytes@,
                3,
                field_byte_len as nat,
                base_field.modulus_value(),
            ) == Ok::<_, ApiError>((ext.non_residue.value(), rest@)) && ext.wf() && ext.base
                == base_field && ext.frobenius_coeffs_c1@.len() == 3
                && ext.frobenius_coeffs_c2@.len() == 3,
            Err(e) => extension_result(bytes@, 3, field_byte_len as nat, base_field.modulus_value())
                == Err::<(nat, Seq<u8>), _>(e),
        },
{
    let (fp_non_residue, rest) = read_degree_and_non_residue(
        bytes,
        EXTENSION_DEGREE_3,
        field_byte_len,
        base_field,
    )?;
    let ghost p = base_field.modulus_value();
    let one = vec![1u8];
    let two = vec![2u8];
    let three = vec![3u8];
    proof {
        lemma_be_value_byte(1);
        lemma_be_value_byte(2);
        lemma_be_value_byte(3);
        assert(one@ =~= seq![1u8]);
        assert(two@ =~= seq![2u8]);
        assert(three@ =~= seq![3u8]);
    }
    let modulus_minus_one = big_sub(modulus, one.as_slice());
    let rem = big_rem(modulus_minus_one.as_slice(), three.as_slice());
    if !big_is_zero(rem.as_slice()) {
        return Err(ApiError::UnknownParameter);
    }
    let modulus_squared = big_mul(modulus, modulus);
    proof {
        assert(p * p >= 1) by (nonlinear_arith)
            requires
                p >= 1,
        ;
    }
    let squared_minus_one = big_sub(modulus_squared.as_slice(), one.as_slice());
    let twice = big_mul(two.as_slice(), modulus_minus_one.as_slice());
    let twice_squared = big_mul(two.as_slice(), squared_minus_one.as_slice());
    let e1 = big_div(modulus_minus_one.as_slice(), three.as_slice());
    let e2 = big_div(squared_minus_one.as_slice(), three.as_slice());
    let e3 = big_div(twice.as_slice(), three.as_slice());
    let e4 = big_div(twice_squared.as_slice(), three.as_slice());
    let zero: Vec<u8> = Vec::new();
    let mut coeffs_1: Vec<Fp> = Vec::new();
    coeffs_1.push(power_element(&fp_non_residue, zero.as_slice(), base_field));
    coeffs_1.push(power_element(&fp_non_residue, e1.as_slice(), base_field));
    coeffs_1.push(power_element(&fp_non_residue, e2.as_slice(), base_field));
    let mut coeffs_2: Vec<Fp> = Vec::new();
    coeffs_2.push(power_element(&fp_non_residue, zero.as_slice(), base_field));
    coeffs_2.push(power_element(&fp_non_residue, e3.as_slice(), base_field));
    coeffs_2.push(power_element(&fp_non_residue, e4.as_slice(), base_field));
    let ext = Extension3 {
        base: base_field,
        non_residue: fp_non_residue,
        frobenius_coeffs_c1: coeffs_1,
        frobenius_coeffs_c2: coeffs_2,
    };
    Ok((ext, rest))
}

/// Once the degree tag and a nonzero non-residue are read, a quadratic
/// extension is refused exactly when Euler's criterion says residue or zero;
/// otherwise it is built whenever `modulus - 1` is even.
pub proof fn fp2_non_residue_law(s: Seq<u8>, n: nat, p: nat)
    requires
        s.len() >= 1,
        s[0] == EXTENSION_DEGREE_2,
        fp_decode(s.skip(1), n, p) matches Ok((enc, _)) && be_value(enc) != 0,
    ensures
        fp_decode(s.skip(1), n, p) matches Ok((enc, rest)) && (residue_or_zero(be_value(enc), p)
            ==> extension_result(s, 2, n, p) == Err::<(nat, Seq<u8>), _>(
            ApiError::NotANonResidue,
        )) && (!residue_or_zero(be_value(enc), p) && (p - 1) % 2 == 0 ==> extension_result(
            s,
            2,
            n,
            p,
        ) == Ok::<_, ApiError>((be_value(enc), rest))),
{
}

} // verus!
