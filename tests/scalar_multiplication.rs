use curve_gadgets::curve::{AffinePoint, CurveParams, CurvePoint, PointByScalarMulStrategy};
use curve_gadgets::gadget::{ConstraintSystem, FieldElement, SynthesisError};

fn toy_curve() -> CurveParams {
    CurveParams {
        modulus: 17,
        a: 2,
        b: 2,
        scalar_modulus: 19,
        is_prime_order_curve: true,
        point_by_scalar_mul_strategy: PointByScalarMulStrategy::Basic,
        offset_x: 6,
        offset_y: 3,
    }
}

fn cofactor_curve() -> CurveParams {
    CurveParams {
        modulus: 1013,
        a: 1,
        b: 3,
        scalar_modulus: 257,
        is_prime_order_curve: false,
        point_by_scalar_mul_strategy: PointByScalarMulStrategy::Basic,
        offset_x: 4,
        offset_y: 101,
    }
}

fn prime_curve() -> CurveParams {
    CurveParams {
        modulus: 1033,
        a: 0,
        b: 5,
        scalar_modulus: 1087,
        is_prime_order_curve: true,
        point_by_scalar_mul_strategy: PointByScalarMulStrategy::Basic,
        offset_x: 3,
        offset_y: 450,
    }
}

fn pt(x: u64, y: u64) -> CurvePoint {
    CurvePoint::Affine { x, y }
}

#[test]
fn prime_order_multiplication_on_toy_curve() {
    let params = toy_curve();
    let g = pt(5, 1);
    let mut repeated = CurvePoint::Infinity;
    for k in 1..19u64 {
        repeated = repeated.add(&g, &params);
        let mut cs = ConstraintSystem::new(false, 4);
        let p = AffinePoint::allocate(&mut cs, Some(g), &params).unwrap();
        let scalar = FieldElement::allocate(Some(k), 19);
        let projective = p.mul_by_scalar_for_prime_order_curve(&mut cs, &scalar).unwrap();
        let affine = projective.convert_to_affine(&mut cs);
        assert!(cs.is_satisfied(), "k = {}", k);
        assert_eq!(affine.get_value(), Some(repeated), "k = {}", k);
        assert_eq!(g.mul(k, &params), repeated);
    }
    let mut cs = ConstraintSystem::new(false, 4);
    let p = AffinePoint::allocate(&mut cs, Some(g), &params).unwrap();
    let one = p.mul_by_scalar_for_prime_order_curve(&mut cs, &FieldElement::allocate(Some(1), 19)).unwrap();
    assert_eq!(one.convert_to_affine(&mut cs).get_value(), Some(pt(5, 1)));
    let minus = p.mul_by_scalar_for_prime_order_curve(&mut cs, &FieldElement::allocate(Some(18), 19)).unwrap();
    assert_eq!(minus.convert_to_affine(&mut cs).get_value(), Some(pt(5, 16)));
    assert!(cs.is_satisfied());
}

#[test]
fn prime_order_multiplication_without_witness() {
    let params = toy_curve();
    let mut cs = ConstraintSystem::new(false, 4);
    let p = AffinePoint::allocate(&mut cs, None, &params).unwrap();
    let scalar = FieldElement::allocate(None, 19);
    let r = p.mul_by_scalar_for_prime_order_curve(&mut cs, &scalar).unwrap();
    assert_eq!(r.convert_to_affine(&mut cs).get_value(), None);
    assert!(cs.is_satisfied());
}

fn check_composite(params: &CurveParams, base: CurvePoint, cases: &[(u64, (u64, u64))]) {
    for &(k, (x, y)) in cases {
        let mut cs = ConstraintSystem::new(false, 4);
        let p = AffinePoint::allocate(&mut cs, Some(base), params).unwrap();
        assert!(cs.is_satisfied());
        let scalar = FieldElement::allocate(Some(k), params.scalar_modulus);
        let r = p.mul_by_scalar_for_composite_order_curve(&mut cs, &scalar).unwrap();
        assert!(cs.is_satisfied(), "k = {}", k);
        assert_eq!(r.get_value(), Some(pt(x, y)), "k = {}", k);
        assert_eq!(base.mul(k, params), pt(x, y), "k = {}", k);
    }
}

#[test]
fn composite_order_multiplication_with_cofactor_four() {
    let cases = [
        (1, (792, 480)),
        (2, (699, 77)),
        (3, (1004, 965)),
        (4, (718, 62)),
        (5, (670, 127)),
        (256, (792, 533)),
        (255, (699, 936)),
        (254, (1004, 48)),
        (129, (759, 958)),
        (170, (409, 228)),
        (85, (26, 389)),
        (127, (549, 132)),
        (200, (776, 478)),
    ];
    check_composite(&cofactor_curve(), pt(792, 480), &cases);
}

#[test]
fn composite_order_multiplication_on_prime_order_curve() {
    let cases = [
        (1, (1, 218)),
        (2, (644, 377)),
        (3, (726, 753)),
        (4, (810, 332)),
        (5, (572, 709)),
        (1086, (1, 815)),
        (1085, (644, 656)),
        (1084, (726, 280)),
        (1023, (672, 79)),
        (1024, (341, 11)),
        (513, (64, 184)),
        (170, (8, 202)),
        (85, (425, 925)),
        (129, (1002, 817)),
        (127, (77, 531)),
        (200, (584, 187)),
    ];
    check_composite(&prime_curve(), pt(1, 218), &cases);
}

#[test]
fn composite_order_multiplication_rejects_zero_and_constant_scalars() {
    let params = cofactor_curve();
    let mut cs = ConstraintSystem::new(false, 4);
    let p = AffinePoint::allocate(&mut cs, Some(pt(792, 480)), &params).unwrap();
    let zero = FieldElement::allocate(Some(0), 257);
    assert_eq!(
        p.mul_by_scalar_for_composite_order_curve(&mut cs, &zero).err(),
        Some(SynthesisError::Unsupported)
    );
    let constant = FieldElement::constant(5, 257);
    assert_eq!(
        p.mul_by_scalar_for_composite_order_curve(&mut cs, &constant).err(),
        Some(SynthesisError::Unsupported)
    );
}

#[test]
fn skewed_digits_recompose_the_scalar() {
    for k in [1u64, 2, 3, 128, 255, 256] {
        let scalar = FieldElement::allocate(Some(k), 257);
        let entries = AffinePoint::decompose_into_skewed_representation(&scalar);
        // width of 257 is nine bits
        assert_eq!(entries.len(), 11);
        let mut value: i64 = 1;
        for e in &entries[1..entries.len() - 1] {
            value = 2 * value + if e.get_value().unwrap() { -1 } else { 1 };
        }
        let correction = if entries[entries.len() - 1].get_value().unwrap() { 1 } else { 0 };
        assert_eq!(value - correction, k as i64);
    }
}

#[test]
fn binary_digits_of_the_scalar() {
    let scalar = FieldElement::allocate(Some(6), 19);
    let bits = AffinePoint::decompose_into_binary_representation(&scalar);
    let values: Vec<bool> = bits.iter().map(|b| b.get_value().unwrap()).collect();
    assert_eq!(values, vec![false, true, true, false, false]);
}

#[test]
fn composite_order_multiplication_rejects_offset_of_small_order() {
    // (10, 0) has order two, so doubling it once per digit gives the identity
    let params = CurveParams { offset_x: 10, offset_y: 0, ..cofactor_curve() };
    let mut cs = ConstraintSystem::new(false, 4);
    let p = AffinePoint::allocate(&mut cs, Some(pt(792, 480)), &params).unwrap();
    let scalar = FieldElement::allocate(Some(5), 257);
    assert_eq!(
        p.mul_by_scalar_for_composite_order_curve(&mut cs, &scalar).err(),
        Some(SynthesisError::UnexpectedIdentity)
    );
}

#[test]
fn composite_order_multiplication_without_witness() {
    let params = cofactor_curve();
    let mut cs = ConstraintSystem::new(false, 4);
    let p = AffinePoint::allocate(&mut cs, None, &params).unwrap();
    let scalar = FieldElement::allocate(None, 257);
    let r = p.mul_by_scalar_for_composite_order_curve(&mut cs, &scalar).unwrap();
    assert_eq!(r.get_value(), None);
    assert!(cs.is_satisfied());
}

#[test]
fn composite_order_multiplication_with_absent_scalar() {
    let params = cofactor_curve();
    let mut cs = ConstraintSystem::new(false, 4);
    let p = AffinePoint::allocate(&mut cs, Some(pt(792, 480)), &params).unwrap();
    let scalar = FieldElement::allocate(None, 257);
    let r = p.mul_by_scalar_for_composite_order_curve(&mut cs, &scalar).unwrap();
    assert_eq!(r.get_value(), None);
    assert!(cs.is_satisfied());
}

#[test]
fn prime_order_multiplication_with_one_side_absent() {
    let params = toy_curve();
    let mut cs = ConstraintSystem::new(false, 4);
    let p = AffinePoint::allocate(&mut cs, Some(pt(5, 1)), &params).unwrap();
    let r = p.mul_by_scalar_for_prime_order_curve(&mut cs, &FieldElement::allocate(None, 19)).unwrap();
    assert_eq!(r.convert_to_affine(&mut cs).get_value(), None);
    let q = AffinePoint::allocate(&mut cs, None, &params).unwrap();
    let r = q.mul_by_scalar_for_prime_order_curve(&mut cs, &FieldElement::allocate(Some(4), 19)).unwrap();
    assert_eq!(r.x.get_field_value(), None);
    assert!(cs.is_satisfied());
}
