use curve_gadgets::curve::{AffinePoint, CurveParams, CurvePoint, PointByScalarMulStrategy};
use curve_gadgets::ext::{AffinePointExt, Fp2};
use curve_gadgets::gadget::{Boolean, ConstraintSystem};

fn prime_curve() -> CurveParams {
    CurveParams {
        modulus: 1033,
        a: 0,
        b: 5,
        scalar_modulus: 1087,
        is_prime_order_curve: true,
        point_by_scalar_mul_strategy: PointByScalarMulStrategy::Basic,
        offset_x: 3,
        offset_y: 450,
    }
}

// 5 is not a square modulo 1033
const NR: u64 = 5;

fn base(cs: &mut ConstraintSystem, x: u64, y: u64) -> AffinePoint {
    AffinePoint::allocate(cs, Some(CurvePoint::Affine { x, y }), &prime_curve()).unwrap()
}

fn ext(cs: &mut ConstraintSystem, x: u64, y: u64) -> AffinePointExt {
    AffinePointExt::from_affine(&base(cs, x, y), NR)
}

#[test]
fn extension_arithmetic() {
    let a = Fp2::constant(3, 4, 1033, NR);
    let b = Fp2::constant(5, 6, 1033, NR);
    // (3 + 4u)(5 + 6u) = 15 + 24 * 5 + (18 + 20) u
    assert_eq!(a.mul(&b).get_value(), Some((135, 38)));
    assert_eq!(a.add(&b).get_value(), Some((8, 10)));
    assert_eq!(a.sub(&b).get_value(), Some((1031, 1031)));
    let mut cs = ConstraintSystem::new(false, 4);
    let q = Fp2::div(&mut cs, &a.mul(&b), &b);
    assert_eq!(q.get_value(), Some((3, 4)));
    assert!(cs.is_satisfied());
}

#[test]
fn embedded_points_follow_the_base_group_law() {
    let mut cs = ConstraintSystem::new(false, 4);
    let p5 = ext(&mut cs, 572, 709);
    let p7 = ext(&mut cs, 562, 737);
    let q7 = base(&mut cs, 562, 737);
    assert_eq!(p5.add_unequal_unchecked(&mut cs, &p7).unwrap().get_value(), Some((444, 0, 792, 0)));
    assert_eq!(p5.mixed_add_unequal_unchecked(&mut cs, &q7).unwrap().get_value(), Some((444, 0, 792, 0)));
    assert_eq!(p5.sub_unequal_unchecked(&mut cs, &p7).unwrap().get_value(), Some((644, 0, 656, 0)));
    assert_eq!(p5.mixed_sub_unequal_unchecked(&mut cs, &q7).unwrap().get_value(), Some((644, 0, 656, 0)));
    assert_eq!(p5.double(&mut cs).unwrap().get_value(), Some((676, 0, 688, 0)));
    assert_eq!(
        p5.double_and_add_unequal_unchecked(&mut cs, &p7).unwrap().get_value(),
        Some((665, 0, 5, 0))
    );
    assert_eq!(
        p5.mixed_double_and_add_unequal_unchecked(&mut cs, &q7).unwrap().get_value(),
        Some((665, 0, 5, 0))
    );
    assert!(cs.is_satisfied());
    p5.enforce_if_on_curve(&mut cs);
    assert!(cs.is_satisfied());
}

#[test]
fn extension_point_allocation_checks_the_curve() {
    let params = prime_curve();
    let mut cs = ConstraintSystem::new(false, 4);
    let p = AffinePointExt::allocate(&mut cs, Some(1), Some(0), Some(218), Some(0), &params, NR).unwrap();
    assert!(cs.is_satisfied());
    assert_eq!(p.get_value(), Some((1, 0, 218, 0)));
    let _ = AffinePointExt::allocate(&mut cs, Some(1), Some(1), Some(218), Some(0), &params, NR).unwrap();
    assert!(!cs.is_satisfied());
}

#[test]
fn extension_negation_selection_and_equality() {
    let params = prime_curve();
    let mut cs = ConstraintSystem::new(false, 4);
    let p = ext(&mut cs, 1, 218);
    let q = ext(&mut cs, 644, 377);
    assert_eq!(p.negate(&mut cs).unwrap().get_value(), Some((1, 0, 815, 0)));
    assert_eq!(
        p.conditionally_negate(&mut cs, &Boolean::constant(true)).unwrap().get_value(),
        Some((1, 0, 815, 0))
    );
    let s = AffinePointExt::conditionally_select(&mut cs, &Boolean::constant(false), &p, &q).unwrap();
    assert_eq!(s.get_value(), Some((644, 0, 377, 0)));
    let c = AffinePointExt::constant(1, 0, 218, 0, &params, NR);
    AffinePointExt::enforce_equal(&mut cs, &p, &c).unwrap();
    assert!(cs.is_satisfied());
    AffinePointExt::enforce_equal(&mut cs, &p, &q).unwrap();
    assert!(!cs.is_satisfied());
    let u = AffinePointExt::uninitialized(&params, NR);
    assert_eq!(u.get_value(), Some((0, 0, 0, 0)));
    assert_eq!(p.get_x().get_value(), Some((1, 0)));
    assert_eq!(p.get_y().get_value(), Some((218, 0)));
}
