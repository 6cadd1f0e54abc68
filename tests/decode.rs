use pairing_decode::error::ApiError;
use pairing_decode::extension::{create_fp2_extension, create_fp3_extension};
use pairing_decode::field::{
    decode_fp, decode_scalar_representation, get_base_field_params, get_g1_curve_params,
    parse_base_field_from_encoding, parse_group_order_from_encoding, read_length_prefixed,
    serialize_fp_fixed_len, Fp, PrimeField,
};
use pairing_decode::num::fit_to_width;
use pairing_decode::point::{
    decode_fp2, decode_fp3, decode_g1_point_from_xy, decode_g2_point_from_xy_in_fp2,
    decode_g2_point_from_xy_in_fp3, parse_ab_in_base_field_from_encoding,
    parse_ab_in_fp2_from_encoding, parse_ab_in_fp3_from_encoding, serialize_fp2_fixed_len,
    serialize_g1_point, serialize_g2_point_in_fp2,
};

fn field_of(modulus: &[u8]) -> PrimeField {
    PrimeField::from_modulus(modulus.to_vec()).unwrap()
}

fn values(xs: &[&Fp]) -> Vec<Vec<u8>> {
    xs.iter().map(|x| x.repr.clone()).collect()
}

#[test]
fn two_elements_after_modulus_23() {
    let input = [0x01, 0x17, 0x03, 0x05];
    let (field, len, modulus, rest) = parse_base_field_from_encoding(&input).unwrap();
    assert_eq!(len, 1);
    assert_eq!(modulus, vec![0x17]);
    assert_eq!(field.modulus_len, 1);
    let (a, b, rest) = parse_ab_in_base_field_from_encoding(rest, len, &field).unwrap();
    assert_eq!(a.repr, vec![3]);
    assert_eq!(b.repr, vec![5]);
    assert!(rest.is_empty());
}

#[test]
fn zero_modulus_is_refused() {
    assert_eq!(parse_base_field_from_encoding(&[0x01, 0x00]).err(), Some(ApiError::UnexpectedZero));
    assert_eq!(parse_base_field_from_encoding(&[0x01, 0x00, 0x05]).err(), Some(ApiError::UnexpectedZero));
    assert_eq!(parse_base_field_from_encoding(&[0x02, 0x00, 0x00, 0x01, 0x02]).err(), Some(ApiError::UnexpectedZero));
    assert_eq!(get_base_field_params(&[0x00]).err(), Some(ApiError::UnexpectedZero));
}

#[test]
fn g1_point_round_trip() {
    let field = field_of(&[0x00, 0x65]);
    assert_eq!(field.modulus_len, 2);
    let bytes = [0x00, 0x05, 0x00, 0x07];
    let (p, rest) = decode_g1_point_from_xy(&bytes, 2, &field).unwrap();
    assert_eq!(p.x.repr, vec![0, 5]);
    assert_eq!(p.y.repr, vec![0, 7]);
    assert!(rest.is_empty());
    assert_eq!(serialize_g1_point(2, &p).unwrap(), bytes.to_vec());
}

#[test]
fn fp2_wrong_degree_tag() {
    let field = field_of(&[23]);
    let r = create_fp2_extension(&[0x03, 0x16], &[23], 1, &field);
    assert_eq!(r.err(), Some(ApiError::UnknownParameter));
    let r = create_fp2_extension(&[0x03], &[23], 1, &field);
    assert_eq!(r.err(), Some(ApiError::UnknownParameter));
}

#[test]
fn scalar_above_order() {
    let r = decode_scalar_representation(&[15], 1, &[11], &[11]);
    assert_eq!(r.err(), Some(ApiError::ScalarOutOfRange));
    let r = decode_scalar_representation(&[11], 1, &[11], &[11]);
    assert_eq!(r.err(), Some(ApiError::ScalarOutOfRange));
}

#[test]
fn scalar_below_order() {
    let (limbs, rest) = decode_scalar_representation(&[7, 9], 1, &[11], &[11]).unwrap();
    assert_eq!(limbs, vec![7]);
    assert_eq!(rest, &[9]);
    let (limbs, rest) = decode_scalar_representation(&[0], 1, &[11], &[11]).unwrap();
    assert_eq!(limbs, vec![0]);
    assert!(rest.is_empty());
}

#[test]
fn scalar_is_padded_to_order_limbs() {
    let mut order = vec![1u8];
    order.extend(vec![0u8; 8]);
    let (order_limbs, _, _, _) = parse_group_order_from_encoding(&[&[9u8][..], &order[..]].concat()).unwrap();
    assert_eq!(order_limbs, vec![0, 1]);
    let mut scalar = vec![0u8; 8];
    scalar.push(0x2a);
    let (limbs, rest) = decode_scalar_representation(&scalar, 9, &order, &order_limbs).unwrap();
    assert_eq!(limbs, vec![0x2a, 0]);
    assert!(rest.is_empty());
}

#[test]
fn scalar_truncated() {
    let r = decode_scalar_representation(&[1], 2, &[1, 0], &[256]);
    assert_eq!(r.err(), Some(ApiError::InputTooShort));
}

#[test]
fn group_order_parse() {
    let (limbs, len, order, rest) = parse_group_order_from_encoding(&[1, 11, 9]).unwrap();
    assert_eq!(limbs, vec![11]);
    assert_eq!(len, 1);
    assert_eq!(order, vec![11]);
    assert_eq!(rest, &[9]);
    assert_eq!(parse_group_order_from_encoding(&[1, 0]).err(), Some(ApiError::UnexpectedZero));
    assert_eq!(parse_group_order_from_encoding(&[0]).err(), Some(ApiError::UnexpectedZero));
    assert_eq!(parse_group_order_from_encoding(&[2, 1]).err(), Some(ApiError::InputTooShort));
}

#[test]
fn length_prefixed_reader() {
    assert_eq!(read_length_prefixed(&[]).err(), Some(ApiError::InputTooShort));
    assert_eq!(read_length_prefixed(&[3, 1, 2]).err(), Some(ApiError::InputTooShort));
    let ((payload, len), rest) = read_length_prefixed(&[2, 1, 2, 3]).unwrap();
    assert_eq!(payload, &[1, 2]);
    assert_eq!(len, 2);
    assert_eq!(rest, &[3]);
    let ((payload, len), rest) = get_g1_curve_params(&[0, 7]).unwrap();
    assert!(payload.is_empty());
    assert_eq!(len, 0);
    assert_eq!(rest, &[7]);
}

#[test]
fn base_field_needs_one_element_after_modulus() {
    assert_eq!(parse_base_field_from_encoding(&[1, 23]).err(), Some(ApiError::InputTooShort));
    assert_eq!(parse_base_field_from_encoding(&[2, 0, 23, 5]).err(), Some(ApiError::InputTooShort));
    assert_eq!(parse_base_field_from_encoding(&[]).err(), Some(ApiError::InputTooShort));
}

#[test]
fn modulus_too_wide() {
    let mut input = vec![129u8, 1];
    input.extend(vec![0u8; 128]);
    input.extend(vec![0u8; 129]);
    assert_eq!(parse_base_field_from_encoding(&input).err(), Some(ApiError::UnsupportedModulus));
    let mut widest = vec![128u8, 1];
    widest.extend(vec![0u8; 127]);
    widest.extend(vec![0u8; 128]);
    assert!(parse_base_field_from_encoding(&widest).is_ok());
}

#[test]
fn fp_codec() {
    let field = field_of(&[23]);
    let (x, rest) = decode_fp(&[22, 1], 1, &field).unwrap();
    assert_eq!(x.repr, vec![22]);
    assert_eq!(rest, &[1]);
    assert_eq!(decode_fp(&[23], 1, &field).err(), Some(ApiError::NotCanonical));
    assert_eq!(decode_fp(&[], 1, &field).err(), Some(ApiError::InputTooShort));
    assert_eq!(serialize_fp_fixed_len(1, &x).unwrap(), vec![22]);
    assert_eq!(serialize_fp_fixed_len(3, &x).unwrap(), vec![0, 0, 22]);
    let wide = Fp { repr: vec![1, 0] };
    assert_eq!(serialize_fp_fixed_len(1, &wide).err(), Some(ApiError::ValueTooWide));
    let padded = Fp { repr: vec![0, 0, 9] };
    assert_eq!(serialize_fp_fixed_len(1, &padded).unwrap(), vec![9]);
}

#[test]
fn fp_round_trip_every_value() {
    let field = field_of(&[0x01, 0x01]);
    for v in 0u16..257 {
        let bytes = v.to_be_bytes();
        let (x, rest) = decode_fp(&bytes, 2, &field).unwrap();
        assert!(rest.is_empty());
        assert_eq!(serialize_fp_fixed_len(2, &x).unwrap(), bytes.to_vec());
    }
    assert_eq!(decode_fp(&[1, 1], 2, &field).err(), Some(ApiError::NotCanonical));
}

#[test]
fn fit_to_width_values() {
    assert_eq!(fit_to_width(&[], 2), Some(vec![0, 0]));
    assert_eq!(fit_to_width(&[0, 0, 1, 2], 2), Some(vec![1, 2]));
    assert_eq!(fit_to_width(&[0, 1, 1, 2], 2), None);
    assert_eq!(fit_to_width(&[5], 0), None);
    assert_eq!(fit_to_width(&[0], 0), Some(vec![]));
}

#[test]
fn fp2_extension_with_non_residue() {
    let field = field_of(&[23]);
    let (ext, rest) = create_fp2_extension(&[2, 22, 7], &[23], 1, &field).unwrap();
    assert_eq!(ext.non_residue.repr, vec![22]);
    assert_eq!(ext.frobenius_coeffs_c1.len(), 2);
    assert_eq!(values(&[&ext.frobenius_coeffs_c1[0], &ext.frobenius_coeffs_c1[1]]), vec![vec![1], vec![22]]);
    assert_eq!(rest, &[7]);
    let (ext, _) = create_fp2_extension(&[2, 5], &[23], 1, &field).unwrap();
    assert_eq!(ext.frobenius_coeffs_c1[1].repr, vec![22]);
}

#[test]
fn fp2_extension_with_residue() {
    let field = field_of(&[23]);
    assert_eq!(create_fp2_extension(&[2, 4], &[23], 1, &field).err(), Some(ApiError::NotANonResidue));
    assert_eq!(create_fp2_extension(&[2, 1], &[23], 1, &field).err(), Some(ApiError::NotANonResidue));
    assert_eq!(create_fp2_extension(&[2, 0], &[23], 1, &field).err(), Some(ApiError::UnexpectedZero));
    assert_eq!(create_fp2_extension(&[2, 23], &[23], 1, &field).err(), Some(ApiError::NotCanonical));
    assert_eq!(create_fp2_extension(&[2], &[23], 1, &field).err(), Some(ApiError::InputTooShort));
    assert_eq!(create_fp2_extension(&[], &[23], 1, &field).err(), Some(ApiError::InputTooShort));
}

#[test]
fn fp2_extension_even_modulus() {
    let field = field_of(&[4]);
    assert_eq!(create_fp2_extension(&[2, 2], &[4], 1, &field).err(), Some(ApiError::UnknownParameter));
}

#[test]
fn fp3_extension_coefficients() {
    let field = field_of(&[7]);
    let (ext, rest) = create_fp3_extension(&[3, 3], &[7], 1, &field).unwrap();
    assert!(rest.is_empty());
    let c1: Vec<&Fp> = ext.frobenius_coeffs_c1.iter().collect();
    let c2: Vec<&Fp> = ext.frobenius_coeffs_c2.iter().collect();
    assert_eq!(values(&c1), vec![vec![1], vec![2], vec![4]]);
    assert_eq!(values(&c2), vec![vec![1], vec![4], vec![2]]);
}

#[test]
fn fp3_extension_errors() {
    let field = field_of(&[5]);
    assert_eq!(create_fp3_extension(&[3, 2], &[5], 1, &field).err(), Some(ApiError::UnknownParameter));
    assert_eq!(create_fp3_extension(&[2, 2], &[5], 1, &field).err(), Some(ApiError::UnknownParameter));
    assert_eq!(create_fp3_extension(&[3, 0], &[5], 1, &field).err(), Some(ApiError::UnexpectedZero));
}

#[test]
fn g2_points_and_coefficients() {
    let field = field_of(&[23]);
    let (ext2, _) = create_fp2_extension(&[2, 22], &[23], 1, &field).unwrap();
    let bytes = [1, 2, 3, 4, 9];
    let (p, rest) = decode_g2_point_from_xy_in_fp2(&bytes, 1, &ext2).unwrap();
    assert_eq!(values(&[&p.x.c0, &p.x.c1, &p.y.c0, &p.y.c1]), vec![vec![1], vec![2], vec![3], vec![4]]);
    assert_eq!(rest, &[9]);
    assert_eq!(serialize_g2_point_in_fp2(1, &p).unwrap(), vec![1, 2, 3, 4]);
    assert_eq!(serialize_fp2_fixed_len(2, &p.y).unwrap(), vec![0, 3, 0, 4]);
    let (a, b, rest) = parse_ab_in_fp2_from_encoding(&bytes, 1, &ext2).unwrap();
    assert_eq!(values(&[&a.c0, &a.c1, &b.c0, &b.c1]), vec![vec![1], vec![2], vec![3], vec![4]]);
    assert_eq!(rest, &[9]);
    assert_eq!(decode_g2_point_from_xy_in_fp2(&[1, 2, 3], 1, &ext2).err(), Some(ApiError::InputTooShort));
    assert_eq!(decode_g2_point_from_xy_in_fp2(&[1, 2, 30, 4], 1, &ext2).err(), Some(ApiError::NotCanonical));

    let field7 = field_of(&[7]);
    let (ext3, _) = create_fp3_extension(&[3, 3], &[7], 1, &field7).unwrap();
    let bytes = [1, 2, 3, 4, 5, 6];
    let (p, rest) = decode_g2_point_from_xy_in_fp3(&bytes, 1, &ext3).unwrap();
    assert_eq!(values(&[&p.x.c0, &p.x.c1, &p.x.c2, &p.y.c0, &p.y.c1, &p.y.c2]), vec![vec![1], vec![2], vec![3], vec![4], vec![5], vec![6]]);
    assert!(rest.is_empty());
    let (a, b, _) = parse_ab_in_fp3_from_encoding(&bytes, 1, &ext3).unwrap();
    assert_eq!(a.c2.repr, vec![3]);
    assert_eq!(b.c0.repr, vec![4]);
    assert_eq!(parse_ab_in_fp3_from_encoding(&[1, 2, 3, 4, 5, 7], 1, &ext3).err(), Some(ApiError::NotCanonical));
}

#[test]
fn extension_elements() {
    let field = field_of(&[23]);
    let (x, rest) = decode_fp2(&[1, 2, 3], 1, &field).unwrap();
    assert_eq!(values(&[&x.c0, &x.c1]), vec![vec![1], vec![2]]);
    assert_eq!(rest, &[3]);
    let (y, rest) = decode_fp3(&[1, 2, 3], 1, &field).unwrap();
    assert_eq!(values(&[&y.c0, &y.c1, &y.c2]), vec![vec![1], vec![2], vec![3]]);
    assert!(rest.is_empty());
    assert_eq!(decode_fp3(&[1, 2], 1, &field).err(), Some(ApiError::InputTooShort));
}

#[test]
fn g1_point_errors() {
    let field = field_of(&[0x00, 0x65]);
    assert_eq!(decode_g1_point_from_xy(&[0, 5, 0], 2, &field).err(), Some(ApiError::InputTooShort));
    assert_eq!(decode_g1_point_from_xy(&[0, 0x65, 0, 1], 2, &field).err(), Some(ApiError::NotCanonical));
    assert_eq!(decode_g1_point_from_xy(&[0], 2, &field).err(), Some(ApiError::InputTooShort));
}
