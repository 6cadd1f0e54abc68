//! Elements of the quadratic and cubic extensions, curve points over the base
//! field and over the extensions, and the curve coefficients `a, b`.

use crate::error::ApiError;
use crate::extension::{Extension2, Extension3};
use crate::field::{decode_fp, fixed_encoding, fp_decode, serialize_fp_fixed_len, Fp, PrimeField};
use vstd::prelude::*;

verus! {

/// What decoding `k` consecutive canonical elements of `n` bytes each from the
/// head of `s` gives: their encodings in order, and the rest.
pub open spec fn read_elements(s: Seq<u8>, n: nat, p: nat, k: nat) -> Result<
    (Seq<Seq<u8>>, Seq<u8>),
    ApiError,
>
    decreases k,
{
    if k == 0 {
        Ok((Seq::empty(), s))
    } else {
        match fp_decode(s, n, p) {
            Err(e) => Err(e),
            Ok((a, rest)) => match read_elements(rest, n, p, (k - 1) as nat) {
                Err(e) => Err(e),
                Ok((xs, rest2)) => Ok((seq![a] + xs, rest2)),
            },
        }
    }
}

/// The encodings of a sequence of elements.
pub open spec fn encodings(v: Seq<Fp>) -> Seq<Seq<u8>> {
    v.map_values(|x: Fp| x.repr@)
}

/// Two encodings one after the other; the first failure wins.
pub open spec fn concat_results(a: Result<Seq<u8>, ApiError>, b: Result<Seq<u8>, ApiError>) -> Result<
    Seq<u8>,
    ApiError,
> {
    match a {
        Err(e) => Err(e),
        Ok(x) => match b {
            Err(e) => Err(e),
            Ok(y) => Ok(x + y),
        },
    }
}

/// An encoding result as a result over byte sequences.
pub open spec fn bytes_result(r: Result<Vec<u8>, ApiError>) -> Result<Seq<u8>, ApiError> {
    match r {
        Ok(b) => Ok(b@),
        Err(e) => Err(e),
    }
}

/// Decodes `k` consecutive canonical elements of `n` bytes each.
pub fn decode_elements<'a>(bytes: &'a [u8], n: usize, field: &PrimeField, k: usize) -> (r: Result<
    (Vec<Fp>, &'a [u8]),
    ApiError,
>)
    requires
        field.wf(),
    ensures
        match r {
            Ok((v, rest)) => read_elements(bytes@, n as nat, field.modulus_value(), k as nat)
                == Ok::<_, ApiError>((encodings(v@), rest@)) && v@.len() == k && forall|i: int|
                0 <= i < k ==> (#[trigger] v@[i]).wf_in(field),
            Err(e) => read_elements(bytes@, n as nat, field.modulus_value(), k as nat) == Err::<
                (Seq<Seq<u8>>, Seq<u8>),
                _,
            >(e),
        },
    decreases k,
{
    if k == 0 {
        let v: Vec<Fp> = Vec::new();
        proof {
            assert(encodings(v@) =~= Seq::<Seq<u8>>::empty());
        }
        return Ok((v, bytes));
    }
    let (x, rest) = decode_fp(bytes, n, field)?;
    let (mut v, rest) = decode_elements(rest, n, field, k - 1)?;
    let ghost tail = v@;
    v.insert(0, x);
    proof {
        assert(encodings(v@) =~= seq![x.repr@] + encodings(tail));
        assert forall|i: int| 0 <= i < k implies (#[trigger] v@[i]).wf_in(field) by {
            if i > 0 {
                assert(v@[i] == tail[i - 1]);
            }
        }
    }
    Ok((v, rest))
}

/// An element of a quadratic extension: `c0 + c1 u`.
pub struct Fp2 {
    pub c0: Fp,
    pub c1: Fp,
}

impl Fp2 {
    pub open spec fn encodings(&self) -> Seq<Seq<u8>> {
        seq![self.c0.repr@, self.c1.repr@]
    }

    pub open spec fn wf_in(&self, field: &PrimeField) -> bool {
        self.c0.wf_in(field) && self.c1.wf_in(field)
    }
}

/// An element of a cubic extension: `c0 + c1 u + c2 u^2`.
pub struct Fp3 {
    pub c0: Fp,
    pub c1: Fp,
    pub c2: Fp,
}

impl Fp3 {
    pub open spec fn encodings(&self) -> Seq<Seq<u8>> {
        seq![self.c0.repr@, self.c1.repr@, self.c2.repr@]
    }

    pub open spec fn wf_in(&self, field: &PrimeField) -> bool {
        self.c0.wf_in(field) && self.c1.wf_in(field) && self.c2.wf_in(field)
    }
}

/// A point of a curve over the base field. Curve membership is not checked here.
pub struct CurvePoint {
    pub x: Fp,
    pub y: Fp,
}

/// A point of a quadratic twist.
pub struct TwistPoint {
    pub x: Fp2,
    pub y: Fp2,
}

/// A point of a cubic twist.
pub struct CubicTwistPoint {
    pub x: Fp3,
    pub y: Fp3,
}

/// Takes the last element off a vector that has one.
fn take_last(v: &mut Vec<Fp>) -> (x: Fp)
    requires
        old(v)@.len() > 0,
    ensures
        x == old(v)@.last(),
        final(v)@ == old(v)@.drop_last(),
{
    v.pop().unwrap()
}

/// Decodes an element of a quadratic extension: two base-field elements.
pub fn decode_fp2<'a>(bytes: &'a [u8], field_byte_len: usize, field: &PrimeField) -> (r: Result<
    (Fp2, &'a [u8]),
    ApiError,
>)
    requires
        field.wf(),
    ensures
        match r {
            Ok((x, rest)) => read_elements(bytes@, field_byte_len as nat, field.modulus_value(), 2)
                == Ok::<_, ApiError>((x.encodings(), rest@)) && x.wf_in(field),
            Err(e) => read_elements(bytes@, field_byte_len as nat, field.modulus_value(), 2)
                == Err::<(Seq<Seq<u8>>, Seq<u8>), _>(e),
        },
{
    let (mut v, rest) = decode_elements(bytes, field_byte_len, field, 2)?;
    let ghost all = v@;
    let c1 = take_last(&mut v);
    let c0 = take_last(&mut v);
    let x = Fp2 { c0, c1 };
    proof {
        assert(encodings(all) =~= x.encodings());
        assert(all[0].wf_in(field) && all[1].wf_in(field));
    }
    Ok((x, rest))
}

/// Decodes an element of a cubic extension: three base-field elements.
pub fn decode_fp3<'a>(bytes: &'a [u8], field_byte_len: usize, field: &PrimeField) -> (r: Result<
    (Fp3, &'a [u8]),
    ApiError,
>)
    requires
        field.wf(),
    ensures
        match r {
            Ok((x, rest)) => read_elements(bytes@, field_byte_len as nat, field.modulus_value(), 3)
                == Ok::<_, ApiError>((x.encodings(), rest@)) && x.wf_in(field),
            Err(e) => read_elements(bytes@, field_byte_len as nat, field.modulus_value(), 3)
                == Err::<(Seq<Seq<u8>>, Seq<u8>), _>(e),
        },
{
    let (mut v, rest) = decode_elements(bytes, field_byte_len, field, 3)?;
    let ghost all = v@;
    let c2 = take_last(&mut v);
    let c1 = take_last(&mut v);
    let c0 = take_last(&mut v);
    let x = Fp3 { c0, c1, c2 };
    proof {
        assert(encodings(all) =~= x.encodings());
        assert(all[0].wf_in(field) && all[1].wf_in(field) && all[2].wf_in(field));
    }
    Ok((x, rest))
}

/// Decodes a point over the base field: `X` then `Y`.
pub fn decode_g1_point_from_xy<'a>(bytes: &'a [u8], field_byte_len: usize, field: &PrimeField) -> (r:
    Result<(CurvePoint, &'a [u8]), ApiError>)
    requires
        field.wf(),
    ensures
        match r {
            Ok((pt, rest)) => read_elements(bytes@, field_byte_len as nat, field.modulus_value(), 2)
                == Ok::<_, ApiError>((seq![pt.x.repr@, pt.y.repr@], rest@)) && pt.x.wf_in(field)
                && pt.y.wf_in(field),
            Err(e) => read_elements(bytes@, field_byte_len as nat, field.modulus_value(), 2)
                == Err::<(Seq<Seq<u8>>, Seq<u8>), _>(e),
        },
{
    let (mut v, rest) = decode_elements(bytes, field_byte_len, field, 2)?;
    let ghost all = v@;
    let y = take_last(&mut v);
    let x = take_last(&mut v);
    proof {
        assert(encodings(all) =~= seq![x.repr@, y.repr@]);
        assert(all[0].wf_in(field) && all[1].wf_in(field));
    }
    Ok((CurvePoint { x, y }, rest))
}

/// Decodes the curve coefficients `a` then `b` in the base field.
pub fn parse_ab_in_base_field_from_encoding<'a>(
    encoding: &'a [u8],
    modulus_len: usize,
    base_field: &PrimeField,
) -> (r: Result<(Fp, Fp, &'a [u8]), ApiError>)
    requires
        base_field.wf(),
    ensures
        match r {
            Ok((a, b, rest)) => read_elements(
                encoding@,
                modulus_len as nat,
                base_field.modulus_value(),
                2,
            ) == Ok::<_, ApiError>((seq![a.repr@, b.repr@], rest@)) && a.wf_in(base_field)
                && b.wf_in(base_field),
            Err(e) => read_elements(encoding@, modulus_len as nat, base_field.modulus_value(), 2)
                == Err::<(Seq<Seq<u8>>, Seq<u8>), _>(e),
        },
{
    let (mut v, rest) = decode_elements(encoding, modulus_len, base_field, 2)?;
    let ghost all = v@;
    let b = take_last(&mut v);
    let a = take_last(&mut v);
    proof {
        assert(encodings(all) =~= seq![a.repr@, b.repr@]);
        assert(all[0].wf_in(base_field) && all[1].wf_in(base_field));
    }
    Ok((a, b, rest))
}

/// Decodes two elements of a quadratic extension, one after the other.
fn decode_fp2_pair<'a>(bytes: &'a [u8], field_byte_len: usize, field: &PrimeField) -> (r: Result<
    (Fp2, Fp2, &'a [u8]),
    ApiError,
>)
    requires
        field.wf(),
    ensures
        match r {
            Ok((x, y, rest)) => read_elements(bytes@, field_byte_len as nat, field.modulus_value(), 4)
                == Ok::<_, ApiError>((x.encodings() + y.encodings(), rest@)) && x.wf_in(field)
                && y.wf_in(field),
            Err(e) => read_elements(bytes@, field_byte_len as nat, field.modulus_value(), 4)
                == Err::<(Seq<Seq<u8>>, Seq<u8>), _>(e),
        },
{
    let (mut v, rest) = decode_elements(bytes, field_byte_len, field, 4)?;
    let ghost all = v@;
    let y1 = take_last(&mut v);
    let y0 = take_last(&mut v);
    let x1 = take_last(&mut v);
    let x0 = take_last(&mut v);
    let x = Fp2 { c0: x0, c1: x1 };
    let y = Fp2 { c0: y0, c1: y1 };
    proof {
        assert(encodings(all) =~= x.encodings() + y.encodings());
        assert(all[0].wf_in(field) && all[1].wf_in(field));
        assert(all[2].wf_in(field) && all[3].wf_in(field));
    }
    Ok((x, y, rest))
}

/// Decodes two elements of a cubic extension, one after the other.
fn decode_fp3_pair<'a>(bytes: &'a [u8], field_byte_len: usize, field: &PrimeField) -> (r: Result<
    (Fp3, Fp3, &'a [u8]),
    ApiError,
>)
    requires
        field.wf(),
    ensures
        match r {
            Ok((x, y, rest)) => read_elements(bytes@, field_byte_len as nat, field.modulus_value(), 6)
                == Ok::<_, ApiError>((x.encodings() + y.encodings(), rest@)) && x.wf_in(field)
                && y.wf_in(field),
            Err(e) => read_elements(bytes@, field_byte_len as nat, field.modulus_value(), 6)
                == Err::<(Seq<Seq<u8>>, Seq<u8>), _>(e),
        },
{
    let (mut v, rest) = decode_elements(bytes, field_byte_len, field, 6)?;
    let ghost all = v@;
    let y2 = take_last(&mut v);
    let y1 = take_last(&mut v);
    let y0 = take_last(&mut v);
    let x2 = take_last(&mut v);
    let x1 = take_last(&mut v);
    let x0 = take_last(&mut v);
    let x = Fp3 { c0: x0, c1: x1, c2: x2 };
    let y = Fp3 { c0: y0, c1: y1, c2: y2 };
    proof {
        assert(encodings(all) =~= x.encodings() + y.encodings());
        assert(all[0].wf_in(field) && all[1].wf_in(field) && all[2].wf_in(field));
        assert(all[3].wf_in(field) && all[4].wf_in(field) && all[5].wf_in(field));
    }
    Ok((x, y, rest))
}

/// Decodes a point of a quadratic twist: `X` then `Y`, each two base-field elements.
pub fn decode_g2_point_from_xy_in_fp2<'a, 'b>(
    bytes: &'a [u8],
    field_byte_len: usize,
    field: &Extension2<'b>,
) -> (r: Result<(TwistPoint, &'a [u8]), ApiError>)
    requires
        field.wf(),
    ensures
        match r {
            Ok((pt, rest)) => read_elements(
                bytes@,
                field_byte_len as nat,
                field.base.modulus_value(),
                4,
            ) == Ok::<_, ApiError>((pt.x.encodings() + pt.y.encodings(), rest@)) && pt.x.wf_in(
                field.base,
            ) && pt.y.wf_in(field.base),
            Err(e) => read_elements(bytes@, field_byte_len as nat, field.base.modulus_value(), 4)
                == Err::<(Seq<Seq<u8>>, Seq<u8>), _>(e),
        },
{
    let (x, y, rest) = decode_fp2_pair(bytes, field_byte_len, field.base)?;
    Ok((TwistPoint { x, y }, rest))
}

/// Decodes a point of a cubic twist: `X` then `Y`, each three base-field elements.
pub fn decode_g2_point_from_xy_in_fp3<'a, 'b>(
    bytes: &'a [u8],
    field_byte_len: usize,
    field: &Extension3<'b>,
) -> (r: Result<(CubicTwistPoint, &'a [u8]), ApiError>)
    requires
        field.wf(),
    ensures
        match r {
            Ok((pt, rest)) => read_elements(
                bytes@,
                field_byte_len as nat,
                field.base.modulus_value(),
                6,
            ) == Ok::<_, ApiError>((pt.x.encodings() + pt.y.encodings(), rest@)) && pt.x.wf_in(
                field.base,
            ) && pt.y.wf_in(field.base),
            Err(e) => read_elements(bytes@, field_byte_len as nat, field.base.modulus_value(), 6)
                == Err::<(Seq<Seq<u8>>, Seq<u8>), _>(e),
        },
{
    let (x, y, rest) = decode_fp3_pair(bytes, field_byte_len, field.base)?;
    Ok((CubicTwistPoint { x, y }, rest))
}

/// Decodes the curve coefficients `a` then `b` in a quadratic extension.
pub fn parse_ab_in_fp2_from_encoding<'a, 'b>(
    encoding: &'a [u8],
    modulus_len: usize,
    field: &Extension2<'b>,
) -> (r: Result<(Fp2, Fp2, &'a [u8]), ApiError>)
    requires
        field.wf(),
    ensures
        match r {
            Ok((a, b, rest)) => read_elements(
                encoding@,
                modulus_len as nat,
                field.base.modulus_value(),
                4,
            ) == Ok::<_, ApiError>((a.encodings() + b.encodings(), rest@)) && a.wf_in(field.base)
                && b.wf_in(field.base),
            Err(e) => read_elements(encoding@, modulus_len as nat, field.base.modulus_value(), 4)
                == Err::<(Seq<Seq<u8>>, Seq<u8>), _>(e),
        },
{
    decode_fp2_pair(encoding, modulus_len, field.base)
}

/// Decodes the curve coefficients `a` then `b` in a cubic extension.
pub fn parse_ab_in_fp3_from_encoding<'a, 'b>(
    encoding: &'a [u8],
    modulus_len: usize,
    field: &Extension3<'b>,
) -> (r: Result<(Fp3, Fp3, &'a [u8]), ApiError>)
    requires
        field.wf(),
    ensures
        match r {
            Ok((a, b, rest)) => read_elements(
                encoding@,
                modulus_len as nat,
                field.base.modulus_value(),
                6,
            ) == Ok::<_, ApiError>((a.encodings() + b.encodings(), rest@)) && a.wf_in(field.base)
                && b.wf_in(field.base),
            Err(e) => read_elements(encoding@, modulus_len as nat, field.base.modulus_value(), 6)
                == Err::<(Seq<Seq<u8>>, Seq<u8>), _>(e),
        },
{
    decode_fp3_pair(encoding, modulus_len, field.base)
}

/// The encoding of a quadratic-extension element: `c0` then `c1`, each in `n` bytes.
pub open spec fn fp2_encoding(x: Fp2, n: nat) -> Result<Seq<u8>, ApiError> {
    concat_results(fixed_encoding(x.c0.value(), n), fixed_encoding(x.c1.value(), n))
}

/// Concatenates two encodings.
fn append_encoding(a: Result<Vec<u8>, ApiError>, b: Result<Vec<u8>, ApiError>) -> (r: Result<Vec<u8>, ApiError>)
    ensures
        bytes_result(r) == concat_results(bytes_result(a), bytes_result(b)),
{
    let mut result = a?;
    let mut tail = b?;
    result.append(&mut tail);
    Ok(result)
}

/// Encodes a quadratic-extension element: `c0` then `c1`, each in `modulus_len` bytes.
pub fn serialize_fp2_fixed_len(modulus_len: usize, x: &Fp2) -> (r: Result<Vec<u8>, ApiError>)
    ensures
        bytes_result(r) == fp2_encoding(*x, modulus_len as nat),
{
    append_encoding(serialize_fp_fixed_len(modulus_len, &x.c0), serialize_fp_fixed_len(modulus_len, &x.c1))
}

/// Encodes a point over the base field: `X` then `Y`, each in `modulus_len` bytes.
pub fn serialize_g1_point(modulus_len: usize, point: &CurvePoint) -> (r: Result<Vec<u8>, ApiError>)
    ensures
        bytes_result(r) == concat_results(
            fixed_encoding(point.x.value(), modulus_len as nat),
            fixed_encoding(point.y.value(), modulus_len as nat),
        ),
{
    append_encoding(serialize_fp_fixed_len(modulus_len, &point.x), serialize_fp_fixed_len(modulus_len, &point.y))
}

/// Encodes a point of a quadratic twist: `X` then `Y`, each as an extension element.
pub fn serialize_g2_point_in_fp2(modulus_len: usize, point: &TwistPoint) -> (r: Result<Vec<u8>, ApiError>)
    ensures
        bytes_result(r) == concat_results(
            fp2_encoding(point.x, modulus_len as nat),
            fp2_encoding(point.y, modulus_len as nat),
        ),
{
    append_encoding(serialize_fp2_fixed_len(modulus_len, &point.x), serialize_fp2_fixed_len(modulus_len, &point.y))
}

} // verus!
