use curve_gadgets::curve::{AffinePoint, CurveParams, CurvePoint, PointByScalarMulStrategy};
use curve_gadgets::gadget::{Boolean, ConstraintSystem, FieldElement, SynthesisError};

fn curve_a_zero() -> CurveParams {
    CurveParams {
        modulus: 1033,
        a: 0,
        b: 5,
        scalar_modulus: 1087,
        is_prime_order_curve: true,
        point_by_scalar_mul_strategy: PointByScalarMulStrategy::Basic,
        offset_x: 3,
        offset_y: 450,
    }
}

fn toy_curve() -> CurveParams {
    CurveParams {
        modulus: 17,
        a: 2,
        b: 2,
        scalar_modulus: 19,
        is_prime_order_curve: true,
        point_by_scalar_mul_strategy: PointByScalarMulStrategy::Basic,
        offset_x: 6,
        offset_y: 3,
    }
}

fn pt(x: u64, y: u64) -> CurvePoint {
    CurvePoint::Affine { x, y }
}

fn alloc_point(cs: &mut ConstraintSystem, p: CurvePoint, params: &CurveParams) -> AffinePoint {
    AffinePoint::allocate(cs, Some(p), params).unwrap()
}

#[test]
fn on_curve_enforcement_rejects_off_curve_point() {
    let params = curve_a_zero();
    let mut cs = ConstraintSystem::new(false, 4);
    let good = alloc_point(&mut cs, pt(1, 218), &params);
    assert!(cs.is_satisfied());
    good.enforce_if_on_curve(&mut cs);
    assert!(cs.is_satisfied());
    // (1, 219) does not satisfy y^2 = x^3 + 5
    let bad = AffinePoint::alloc_unchecked(&mut cs, Some(pt(1, 219)), &params).unwrap();
    assert!(cs.is_satisfied());
    bad.enforce_if_on_curve(&mut cs);
    assert!(!cs.is_satisfied());
}

#[test]
fn checked_allocation_of_off_curve_point_is_unsatisfiable() {
    let params = toy_curve();
    let mut cs = ConstraintSystem::new(false, 4);
    let _ = AffinePoint::allocate(&mut cs, Some(pt(5, 2)), &params).unwrap();
    assert!(!cs.is_satisfied());
}

#[test]
fn allocation_without_witness_keeps_the_system_satisfied() {
    let params = toy_curve();
    let mut cs = ConstraintSystem::new(false, 4);
    let p = AffinePoint::allocate(&mut cs, None, &params).unwrap();
    assert!(cs.is_satisfied());
    assert_eq!(p.get_value(), None);
}

#[test]
fn identity_cannot_be_allocated() {
    let params = toy_curve();
    let mut cs = ConstraintSystem::new(false, 4);
    let r = AffinePoint::allocate(&mut cs, Some(CurvePoint::Infinity), &params);
    assert_eq!(r.err(), Some(SynthesisError::UnexpectedIdentity));
    let r = AffinePoint::alloc_unchecked(&mut cs, Some(CurvePoint::Infinity), &params);
    assert_eq!(r.err(), Some(SynthesisError::UnexpectedIdentity));
}

#[test]
fn addition_matches_reference_and_stays_on_curve() {
    let params = curve_a_zero();
    let mut cs = ConstraintSystem::new(false, 4);
    let p5 = alloc_point(&mut cs, pt(572, 709), &params);
    let p7 = alloc_point(&mut cs, pt(562, 737), &params);
    let sum = p5.add_unequal_unchecked(&mut cs, &p7);
    assert_eq!(sum.get_value(), Some(pt(444, 792)));
    assert!(cs.is_satisfied());
    assert!(sum.get_value().unwrap().is_on_curve(&params));
    sum.enforce_if_on_curve(&mut cs);
    assert!(cs.is_satisfied());
    let reference = pt(572, 709).add(&pt(562, 737), &params);
    assert_eq!(reference, pt(444, 792));
}

#[test]
fn addition_on_toy_curve_every_pair() {
    let params = toy_curve();
    let mut multiples = Vec::new();
    let g = pt(5, 1);
    let mut acc = CurvePoint::Infinity;
    for _ in 1..19 {
        acc = acc.add(&g, &params);
        multiples.push(acc);
    }
    for (i, p) in multiples.iter().enumerate() {
        for (j, q) in multiples.iter().enumerate() {
            let (CurvePoint::Affine { x: x1, .. }, CurvePoint::Affine { x: x2, .. }) = (p, q) else {
                panic!("multiple of the generator is the identity");
            };
            if x1 == x2 {
                continue;
            }
            let mut cs = ConstraintSystem::new(false, 4);
            let a = alloc_point(&mut cs, *p, &params);
            let b = alloc_point(&mut cs, *q, &params);
            let s = a.add_unequal(&mut cs, &b);
            assert!(cs.is_satisfied());
            let expected = multiples[(i + j + 2 - 1) % 19];
            assert_eq!(s.get_value(), Some(expected));
            assert!(expected.is_on_curve(&params));
        }
    }
}

#[test]
fn adding_points_of_equal_abscissa_is_detected_by_checked_addition() {
    let params = toy_curve();
    let mut cs = ConstraintSystem::new(false, 4);
    let a = alloc_point(&mut cs, pt(5, 1), &params);
    let b = alloc_point(&mut cs, pt(5, 16), &params);
    let _ = a.add_unequal(&mut cs, &b);
    assert!(!cs.is_satisfied());
}

#[test]
fn subtraction_matches_reference() {
    let params = curve_a_zero();
    let mut cs = ConstraintSystem::new(false, 4);
    let p5 = alloc_point(&mut cs, pt(572, 709), &params);
    let p7 = alloc_point(&mut cs, pt(562, 737), &params);
    let d = p5.sub_unequal(&mut cs, &p7);
    assert_eq!(d.get_value(), Some(pt(644, 656)));
    let d2 = p5.sub_unequal_unchecked(&mut cs, &p7);
    assert_eq!(d2.get_value(), Some(pt(644, 656)));
    assert!(cs.is_satisfied());
}

#[test]
fn doubling_matches_reference() {
    let params = curve_a_zero();
    let mut cs = ConstraintSystem::new(false, 4);
    let p5 = alloc_point(&mut cs, pt(572, 709), &params);
    let d = p5.double(&mut cs);
    assert_eq!(d.get_value(), Some(pt(676, 688)));
    assert_eq!(pt(572, 709).add(&pt(572, 709), &params), pt(676, 688));
    assert!(cs.is_satisfied());
}

#[test]
fn fused_double_and_add_equals_double_then_add() {
    let params = curve_a_zero();
    let pairs = [((572, 709), (562, 737)), ((1, 218), (726, 753)), ((726, 753), (810, 332))];
    for ((x1, y1), (x2, y2)) in pairs {
        let mut cs = ConstraintSystem::new(false, 4);
        let p = alloc_point(&mut cs, pt(x1, y1), &params);
        let q = alloc_point(&mut cs, pt(x2, y2), &params);
        let fused = p.double_and_add_unchecked(&mut cs, &q);
        let checked = p.double_and_add(&mut cs, &q);
        let two_p = p.double(&mut cs);
        let separate = two_p.add_unequal_unchecked(&mut cs, &q);
        assert!(cs.is_satisfied());
        assert_eq!(fused.get_value(), separate.get_value());
        assert_eq!(checked.get_value(), separate.get_value());
    }
    let mut cs = ConstraintSystem::new(false, 4);
    let p = alloc_point(&mut cs, pt(572, 709), &params);
    let q = alloc_point(&mut cs, pt(562, 737), &params);
    assert_eq!(p.double_and_add_unchecked(&mut cs, &q).get_value(), Some(pt(665, 5)));
}

#[test]
fn constant_and_allocation_round_trip() {
    let params = curve_a_zero();
    for p in [pt(1, 218), pt(644, 377), pt(3, 450)] {
        let c = AffinePoint::constant(p, &params);
        assert_eq!(c.get_value(), Some(p));
        assert!(c.is_constant());
        let mut cs = ConstraintSystem::new(false, 4);
        let a = AffinePoint::allocate(&mut cs, Some(p), &params).unwrap();
        assert!(cs.is_satisfied());
        assert_eq!(a.get_value(), Some(p));
        assert!(!a.is_constant());
    }
}

#[test]
fn constant_knows_subgroup_membership() {
    let params = CurveParams {
        modulus: 1013,
        a: 1,
        b: 3,
        scalar_modulus: 257,
        is_prime_order_curve: false,
        point_by_scalar_mul_strategy: PointByScalarMulStrategy::Basic,
        offset_x: 4,
        offset_y: 101,
    };
    assert!(AffinePoint::constant(pt(792, 480), &params).is_in_subgroup);
    assert!(!AffinePoint::constant(pt(4, 101), &params).is_in_subgroup);
    let mut cs = ConstraintSystem::new(false, 4);
    let _ = AffinePoint::allocate(&mut cs, Some(pt(792, 480)), &params).unwrap();
    assert!(cs.is_satisfied());
    let _ = AffinePoint::allocate(&mut cs, Some(pt(4, 101)), &params).unwrap();
    assert!(!cs.is_satisfied());
}

#[test]
fn negation_selection_and_equality() {
    let params = toy_curve();
    let mut cs = ConstraintSystem::new(false, 4);
    let g = alloc_point(&mut cs, pt(5, 1), &params);
    let h = alloc_point(&mut cs, pt(6, 3), &params);
    assert_eq!(g.negate().get_value(), Some(pt(5, 16)));
    assert_eq!(g.conditionally_negate(&Boolean::constant(true)).get_value(), Some(pt(5, 16)));
    assert_eq!(g.conditionally_negate(&Boolean::constant(false)).get_value(), Some(pt(5, 1)));
    let sel = AffinePoint::select(&Boolean::allocate(Some(true)), &g, &h);
    assert_eq!(sel.get_value(), Some(pt(5, 1)));
    let sel = AffinePoint::select(&Boolean::allocate(Some(false)), &g, &h);
    assert_eq!(sel.get_value(), Some(pt(6, 3)));
    assert_eq!(AffinePoint::equals(&g, &h).get_value(), Some(false));
    assert_eq!(AffinePoint::equals(&g, &g).get_value(), Some(true));
    AffinePoint::enforce_equal(&mut cs, &g, &g);
    assert!(cs.is_satisfied());
    AffinePoint::enforce_equal(&mut cs, &g, &h);
    assert!(!cs.is_satisfied());
}

#[test]
fn field_element_division_enforces_its_relation() {
    let mut cs = ConstraintSystem::new(false, 4);
    let n = FieldElement::allocate(Some(3), 17);
    let d = FieldElement::allocate(Some(5), 17);
    let q = FieldElement::div(&mut cs, &n, &d);
    assert_eq!(q.get_field_value(), Some(4));
    assert!(cs.is_satisfied());
    let z = FieldElement::constant(0, 17);
    let _ = FieldElement::div(&mut cs, &n, &z);
    assert!(!cs.is_satisfied());
}

#[test]
fn absent_flag_gives_absent_point() {
    let params = toy_curve();
    let mut cs = ConstraintSystem::new(false, 4);
    let g = alloc_point(&mut cs, pt(5, 1), &params);
    let h = alloc_point(&mut cs, pt(6, 3), &params);
    let flag = Boolean::allocate(None);
    assert_eq!(AffinePoint::select(&flag, &g, &h).get_value(), None);
    assert_eq!(g.conditionally_negate(&flag).get_value(), None);
}
