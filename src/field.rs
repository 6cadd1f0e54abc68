//! The length-prefixed reader, the prime field built from a modulus, the
//! fixed-width codec of its elements, and the group order and scalars.

use crate::bignum::{big_ge, big_is_zero, big_to_limbs};
use crate::error::ApiError;
use crate::num::{be_value, fit_to_width, fixed_be, lemma_be_value_bound, lemma_be_value_fixed, lemma_fixed_be_value, lemma_limbs_push_zero, limbs_value, width_bound};
use vstd::prelude::*;
use vstd::slice::slice_to_vec;

verus! {

/// Bytes that hold a length.
pub const BYTES_FOR_LENGTH_ENCODING: usize = 1;

/// The widest modulus supported: sixteen 64-bit limbs.
pub const MAX_MODULUS_BYTE_LEN: usize = 128;

/// A `[length][payload]` blob at the head of `s`: the payload and what follows.
pub open spec fn prefixed_blob(s: Seq<u8>) -> Option<(Seq<u8>, Seq<u8>)> {
    if s.len() >= 1 && s.len() >= 1 + s[0] {
        Some((s.subrange(1, 1 + s[0]), s.skip(1 + s[0])))
    } else {
        None
    }
}

/// Reads a `[length][payload]` blob and returns the payload, its length and the rest.
pub fn read_length_prefixed<'a>(bytes: &'a [u8]) -> (r: Result<((&'a [u8], usize), &'a [u8]), ApiError>)
    ensures
        r.is_ok() <==> prefixed_blob(bytes@).is_some(),
        r matches Err(e) ==> e == ApiError::InputTooShort,
        r matches Ok(((p, l), rest)) ==> prefixed_blob(bytes@) == Some((p@, rest@)) && l == p@.len(),
{
    if bytes.len() < BYTES_FOR_LENGTH_ENCODING {
        return Err(ApiError::InputTooShort);
    }
    let (len_byte, rest) = bytes.split_at(BYTES_FOR_LENGTH_ENCODING);
    let len = len_byte[0] as usize;
    if rest.len() < len {
        return Err(ApiError::InputTooShort);
    }
    let (payload, rest) = rest.split_at(len);
    proof {
        assert(payload@ =~= bytes@.subrange(1, 1 + bytes@[0]));
        assert(rest@ =~= bytes@.skip(1 + bytes@[0]));
    }
    Ok(((payload, len), rest))
}

/// Reads the blob that holds the main group order.
pub fn get_g1_curve_params<'a>(bytes: &'a [u8]) -> (r: Result<((&'a [u8], usize), &'a [u8]), ApiError>)
    ensures
        r.is_ok() <==> prefixed_blob(bytes@).is_some(),
        r matches Err(e) ==> e == ApiError::InputTooShort,
        r matches Ok(((p, l), rest)) ==> prefixed_blob(bytes@) == Some((p@, rest@)) && l == p@.len(),
{
    read_length_prefixed(bytes)
}

/// What reading a blob that must hold a nonzero number gives: the payload and the rest.
pub open spec fn nonzero_blob(s: Seq<u8>) -> Result<(Seq<u8>, Seq<u8>), ApiError> {
    match prefixed_blob(s) {
        None => Err(ApiError::InputTooShort),
        Some((m, rest)) => if be_value(m) == 0 {
            Err(ApiError::UnexpectedZero)
        } else {
            Ok((m, rest))
        },
    }
}

/// Reads the modulus blob; a zero modulus is refused.
pub fn get_base_field_params(bytes: &[u8]) -> (r: Result<((Vec<u8>, usize), &[u8]), ApiError>)
    ensures
        match r {
            Ok(((m, l), rest)) => nonzero_blob(bytes@) == Ok::<_, ApiError>((m@, rest@))
                && l == m@.len(),
            Err(e) => nonzero_blob(bytes@) == Err::<(Seq<u8>, Seq<u8>), _>(e),
        },
{
    let ((payload, len), rest) = read_length_prefixed(bytes)?;
    if big_is_zero(payload) {
        return Err(ApiError::UnexpectedZero);
    }
    Ok(((slice_to_vec(payload), len), rest))
}

/// A prime field, given by its modulus as big-endian bytes.
pub struct PrimeField {
    pub modulus: Vec<u8>,
    pub modulus_len: usize,
}

impl PrimeField {
    pub open spec fn modulus_value(&self) -> nat {
        be_value(self.modulus@)
    }

    pub open spec fn wf(&self) -> bool {
        &&& self.modulus@.len() == self.modulus_len
        &&& self.modulus_value() > 0
        &&& self.modulus_len <= MAX_MODULUS_BYTE_LEN
    }

    /// What building a field from the modulus bytes `m` gives.
    pub open spec fn construction(m: Seq<u8>) -> Result<(), ApiError> {
        if be_value(m) == 0 {
            Err(ApiError::UnexpectedZero)
        } else if m.len() > MAX_MODULUS_BYTE_LEN {
            Err(ApiError::UnsupportedModulus)
        } else {
            Ok(())
        }
    }

    /// Builds the field of a modulus written in big-endian bytes.
    pub fn from_modulus(modulus: Vec<u8>) -> (r: Result<PrimeField, ApiError>)
        ensures
            match r {
                Ok(f) => PrimeField::construction(modulus@) == Ok::<(), ApiError>(()) && f.wf()
                    && f.modulus@ == modulus@,
                Err(e) => PrimeField::construction(modulus@) == Err::<(), _>(e),
            },
    {
        if big_is_zero(modulus.as_slice()) {
            return Err(ApiError::UnexpectedZero);
        }
        if modulus.len() > MAX_MODULUS_BYTE_LEN {
            return Err(ApiError::UnsupportedModulus);
        }
        let modulus_len = modulus.len();
        Ok(PrimeField { modulus, modulus_len })
    }
}

/// What parsing a base field from `s` gives: the modulus bytes and the rest.
pub open spec fn base_field_result(s: Seq<u8>) -> Result<(Seq<u8>, Seq<u8>), ApiError> {
    match nonzero_blob(s) {
        Err(e) => Err(e),
        Ok((m, rest)) => match PrimeField::construction(m) {
            Err(e) => Err(e),
            Ok(_) => if rest.len() < m.len() {
                Err(ApiError::InputTooShort)
            } else {
                Ok((m, rest))
            },
        },
    }
}

/// Parses the modulus blob, builds its field, and checks that at least one
/// element's worth of bytes follows.
pub fn parse_base_field_from_encoding<'a>(encoding: &'a [u8]) -> (r: Result<
    (PrimeField, usize, Vec<u8>, &'a [u8]),
    ApiError,
>)
    ensures
        match r {
            Ok((f, l, m, rest)) => base_field_result(encoding@) == Ok::<_, ApiError>((m@, rest@))
                && f.wf() && f.modulus@ == m@ && l == m@.len() && f.modulus_len == l,
            Err(e) => base_field_result(encoding@) == Err::<(Seq<u8>, Seq<u8>), _>(e),
        },
{
    let ((modulus, modulus_len), rest) = get_base_field_params(encoding)?;
    let field = PrimeField::from_modulus(modulus.clone())?;
    if rest.len() < modulus_len {
        return Err(ApiError::InputTooShort);
    }
    Ok((field, modulus_len, modulus, rest))
}

/// What decoding one canonical element of `n` bytes from the head of `s`
/// gives, in a field of modulus `p`: its encoding and the rest.
pub open spec fn fp_decode(s: Seq<u8>, n: nat, p: nat) -> Result<(Seq<u8>, Seq<u8>), ApiError> {
    if s.len() < n {
        Err(ApiError::InputTooShort)
    } else if be_value(s.take(n as int)) >= p {
        Err(ApiError::NotCanonical)
    } else {
        Ok((s.take(n as int), s.skip(n as int)))
    }
}

/// An element of a prime field, held as its canonical big-endian encoding.
pub struct Fp {
    pub repr: Vec<u8>,
}

impl Fp {
    pub open spec fn value(&self) -> nat {
        be_value(self.repr@)
    }

    /// The element belongs to `field`: it is below the modulus.
    pub open spec fn wf_in(&self, field: &PrimeField) -> bool {
        self.value() < field.modulus_value()
    }

    pub fn is_zero(&self) -> (r: bool)
        ensures
            r == (self.value() == 0),
    {
        big_is_zero(self.repr.as_slice())
    }
}

/// Decodes one element of `field_byte_len` bytes, which must be below the modulus.
pub fn decode_fp<'a>(bytes: &'a [u8], field_byte_len: usize, field: &PrimeField) -> (r: Result<
    (Fp, &'a [u8]),
    ApiError,
>)
    requires
        field.wf(),
    ensures
        match r {
            Ok((x, rest)) => fp_decode(bytes@, field_byte_len as nat, field.modulus_value())
                == Ok::<_, ApiError>((x.repr@, rest@)) && x.wf_in(field),
            Err(e) => fp_decode(bytes@, field_byte_len as nat, field.modulus_value()) == Err::<
                (Seq<u8>, Seq<u8>),
                _,
            >(e),
        },
{
    if bytes.len() < field_byte_len {
        return Err(ApiError::InputTooShort);
    }
    let (encoding, rest) = bytes.split_at(field_byte_len);
    proof {
        assert(encoding@ =~= bytes@.take(field_byte_len as int));
    }
    if big_ge(encoding, field.modulus.as_slice()) {
        return Err(ApiError::NotCanonical);
    }
    Ok((Fp { repr: slice_to_vec(encoding) }, rest))
}

/// What encoding the value `v` in `n` bytes gives.
pub open spec fn fixed_encoding(v: nat, n: nat) -> Result<Seq<u8>, ApiError> {
    if v < width_bound(n) {
        Ok(fixed_be(v, n))
    } else {
        Err(ApiError::ValueTooWide)
    }
}

/// Encodes an element in exactly `modulus_len` big-endian bytes.
pub fn serialize_fp_fixed_len(modulus_len: usize, x: &Fp) -> (r: Result<Vec<u8>, ApiError>)
    ensures
        match r {
            Ok(b) => fixed_encoding(x.value(), modulus_len as nat) == Ok::<_, ApiError>(b@),
            Err(e) => fixed_encoding(x.value(), modulus_len as nat) == Err::<Seq<u8>, _>(e),
        },
{
    match fit_to_width(x.repr.as_slice(), modulus_len) {
        Some(b) => Ok(b),
        None => Err(ApiError::ValueTooWide),
    }
}

/// For every value below the modulus, decoding its encoding gives the value
/// back; for every canonical encoding, encoding the decoded value gives the
/// same bytes.
pub proof fn fp_round_trip(field: PrimeField, v: nat, bytes: Seq<u8>)
    requires
        field.wf(),
        v < field.modulus_value(),
        bytes.len() == field.modulus_len,
        be_value(bytes) < field.modulus_value(),
    ensures
        fixed_encoding(v, field.modulus_len as nat) matches Ok(e) && fp_decode(
            e,
            field.modulus_len as nat,
            field.modulus_value(),
        ) matches Ok((d, rest)) && be_value(d) == v && rest.len() == 0,
        fp_decode(bytes, field.modulus_len as nat, field.modulus_value()) matches Ok((d, rest))
            && fixed_encoding(be_value(d), field.modulus_len as nat) == Ok::<_, ApiError>(bytes)
            && rest.len() == 0,
{
    let n = field.modulus_len as nat;
    lemma_be_value_bound(field.modulus@);
    lemma_fixed_be_value(v, n);
    let e = fixed_be(v, n);
    assert(e.take(n as int) =~= e);
    assert(bytes.take(n as int) =~= bytes);
    lemma_be_value_fixed(bytes);
}

/// Parses the group order blob; a zero order is refused. Returns the order as
/// limbs, its byte length, its bytes and the rest.
pub fn parse_group_order_from_encoding<'a>(encoding: &'a [u8]) -> (r: Result<
    (Vec<u64>, usize, Vec<u8>, &'a [u8]),
    ApiError,
>)
    ensures
        match r {
            Ok((limbs, l, order, rest)) => nonzero_blob(encoding@) == Ok::<_, ApiError>(
                (order@, rest@),
            ) && l == order@.len() && limbs_value(limbs@) == be_value(order@),
            Err(e) => nonzero_blob(encoding@) == Err::<(Seq<u8>, Seq<u8>), _>(e),
        },
{
    let ((order, order_len), rest) = get_g1_curve_params(encoding)?;
    if big_is_zero(order) {
        return Err(ApiError::UnexpectedZero);
    }
    let as_vec = big_to_limbs(order);
    Ok((as_vec, order_len, slice_to_vec(order), rest))
}

/// What decoding a scalar of `n` bytes below `order` gives: its value and the rest.
pub open spec fn scalar_decode(s: Seq<u8>, n: nat, order: nat) -> Result<(nat, Seq<u8>), ApiError> {
    if s.len() < n {
        Err(ApiError::InputTooShort)
    } else if be_value(s.take(n as int)) >= order {
        Err(ApiError::ScalarOutOfRange)
    } else {
        Ok((be_value(s.take(n as int)), s.skip(n as int)))
    }
}

/// Decodes a scalar of `order_byte_len` bytes, which must be below the order,
/// into limbs, zero-extended to at least as many limbs as the order has.
pub fn decode_scalar_representation<'a>(
    bytes: &'a [u8],
    order_byte_len: usize,
    order: &[u8],
    order_repr: &[u64],
) -> (r: Result<(Vec<u64>, &'a [u8]), ApiError>)
    ensures
        match r {
            Ok((limbs, rest)) => scalar_decode(bytes@, order_byte_len as nat, be_value(order@))
                == Ok::<_, ApiError>((limbs_value(limbs@), rest@)) && limbs@.len()
                >= order_repr@.len(),
            Err(e) => scalar_decode(bytes@, order_byte_len as nat, be_value(order@)) == Err::<
                (nat, Seq<u8>),
                _,
            >(e),
        },
{
    if bytes.len() < order_byte_len {
        return Err(ApiError::InputTooShort);
    }
    let (encoding, rest) = bytes.split_at(order_byte_len);
    proof {
        assert(encoding@ =~= bytes@.take(order_byte_len as int));
    }
    if big_ge(encoding, order) {
        return Err(ApiError::ScalarOutOfRange);
    }
    let mut repr = big_to_limbs(encoding);
    while repr.len() < order_repr.len()
        invariant
            limbs_value(repr@) == be_value(encoding@),
        decreases order_repr.len() - repr.len(),
    {
        proof {
            lemma_limbs_push_zero(repr@);
        }
        repr.push(0u64);
    }
    Ok((repr, rest))
}

/// Every stage that reads a declared number of bytes refuses an input shorter
/// than that number as truncated, and yields nothing.
pub proof fn truncated_input_rejected(s: Seq<u8>, n: nat, p: nat, order: nat)
    requires
        s.len() < n,
    ensures
        fp_decode(s, n, p) == Err::<(Seq<u8>, Seq<u8>), _>(ApiError::InputTooShort),
        scalar_decode(s, n, order) == Err::<(nat, Seq<u8>), _>(ApiError::InputTooShort),
        s.len() == 0 || s.len() < 1 + s[0] ==> nonzero_blob(s) == Err::<(Seq<u8>, Seq<u8>), _>(
            ApiError::InputTooShort,
        ) && base_field_result(s) == Err::<(Seq<u8>, Seq<u8>), _>(ApiError::InputTooShort),
{
}

/// A modulus or a group order that reads as zero is refused as zero, however
/// many bytes encode it.
pub proof fn zero_modulus_or_order_rejected(s: Seq<u8>)
    requires
        prefixed_blob(s) matches Some((m, _)) && be_value(m) == 0,
    ensures
        nonzero_blob(s) == Err::<(Seq<u8>, Seq<u8>), _>(ApiError::UnexpectedZero),
        base_field_result(s) == Err::<(Seq<u8>, Seq<u8>), _>(ApiError::UnexpectedZero),
{
}

/// A scalar that is not below the order is refused; one below it decodes to
/// its own value.
pub proof fn scalar_range_law(s: Seq<u8>, n: nat, order: nat)
    requires
        s.len() >= n,
    ensures
        be_value(s.take(n as int)) >= order ==> scalar_decode(s, n, order) == Err::<
            (nat, Seq<u8>),
            _,
        >(ApiError::ScalarOutOfRange),
        be_value(s.take(n as int)) < order ==> scalar_decode(s, n, order) == Ok::<_, ApiError>(
            (be_value(s.take(n as int)), s.skip(n as int)),
        ),
{
}

} // verus!
