use curve_gadgets::gadget::{ConstraintSystem, FieldElement};
use curve_gadgets::sbox::{
    add_chain_pow, inner_apply_5th_power, sbox, sbox_alpha, sbox_alpha_inv,
    sbox_alpha_inv_via_add_chain, CustomGate, Sbox, Step,
};

fn state(values: &[u64]) -> Vec<FieldElement> {
    values.iter().map(|v| FieldElement::allocate(Some(*v), 17)).collect()
}

fn values(s: &[FieldElement]) -> Vec<Option<u64>> {
    s.iter().map(|e| e.get_field_value()).collect()
}

// 13 * 5 = 65 = 1 mod 16, so x^13 is the fifth root of x modulo 17
fn chain_for_13() -> Vec<Step> {
    vec![
        Step::Double { index: 0 },
        Step::Add { left: 1, right: 0 },
        Step::Double { index: 2 },
        Step::Double { index: 3 },
        Step::Add { left: 4, right: 0 },
    ]
}

#[test]
fn fifth_power_on_full_and_partial_state() {
    let mut cs = ConstraintSystem::new(false, 4);
    let mut s = state(&[2, 3, 16]);
    sbox_alpha(&mut cs, &5, &mut s, (0, 3), CustomGate::Disabled).unwrap();
    // 2^5 = 32 = 15, 3^5 = 243 = 5, 16^5 = (-1)^5 = 16
    assert_eq!(values(&s), vec![Some(15), Some(5), Some(16)]);
    let mut s = state(&[2, 3, 16]);
    sbox(&mut cs, &Sbox::Alpha(5), &mut s, Some((1, 2)), CustomGate::Disabled).unwrap();
    assert_eq!(values(&s), vec![Some(2), Some(5), Some(16)]);
    assert!(cs.is_satisfied());
}

#[test]
fn fifth_power_through_custom_gate() {
    let mut cs = ConstraintSystem::new(true, 4);
    let mut s = state(&[2, 3]);
    s.push(FieldElement::constant(4, 17));
    sbox_alpha(&mut cs, &5, &mut s, (0, 3), CustomGate::QuinticWidth4).unwrap();
    // 4^5 = 1024 = 4
    assert_eq!(values(&s), vec![Some(15), Some(5), Some(4)]);
    assert!(s[2].is_constant());
    assert!(!s[0].is_constant());
    assert!(cs.is_satisfied());
}

#[test]
fn inverse_power_is_the_fifth_root() {
    let mut cs = ConstraintSystem::new(true, 4);
    let inputs = [2u64, 3, 5, 16];
    let mut s = state(&inputs);
    sbox_alpha_inv(&mut cs, &[13], &5, &mut s, CustomGate::QuinticWidth3).unwrap();
    assert!(cs.is_satisfied());
    for (r, x) in values(&s).iter().zip(inputs.iter()) {
        let r = r.unwrap();
        assert_eq!(r.pow(5) % 17, *x);
    }
    // 2^13 = 8192 = 15 mod 17
    assert_eq!(s[0].get_field_value(), Some(15));
}

#[test]
fn wrong_inverse_exponent_is_unsatisfiable() {
    let mut cs = ConstraintSystem::new(false, 4);
    let mut s = state(&[2]);
    sbox_alpha_inv(&mut cs, &[3], &5, &mut s, CustomGate::Disabled).unwrap();
    assert!(!cs.is_satisfied());
}

#[test]
fn addition_chain_gives_the_same_root() {
    assert_eq!(add_chain_pow(2, &chain_for_13(), 17), 15);
    let mut cs = ConstraintSystem::new(false, 4);
    let mut a = state(&[2, 3, 7]);
    let mut b = state(&[2, 3, 7]);
    sbox_alpha_inv_via_add_chain(&mut cs, &chain_for_13(), &5, &mut a, CustomGate::Disabled).unwrap();
    sbox(&mut cs, &Sbox::AlphaInverse(vec![13], 5), &mut b, None, CustomGate::Disabled).unwrap();
    assert_eq!(values(&a), values(&b));
    let mut c = state(&[2, 3, 7]);
    sbox(&mut cs, &Sbox::AddChain(chain_for_13(), 5), &mut c, None, CustomGate::Disabled).unwrap();
    assert_eq!(values(&a), values(&c));
    assert!(cs.is_satisfied());
}

#[test]
fn custom_gate_checks_an_existing_fifth_power() {
    let mut cs = ConstraintSystem::new(true, 4);
    let x = FieldElement::allocate(Some(2), 17);
    let good = FieldElement::allocate(Some(15), 17);
    let r = inner_apply_5th_power(&mut cs, &x, Some(good), CustomGate::QuinticWidth4).unwrap();
    assert_eq!(r.get_field_value(), Some(15));
    assert!(cs.is_satisfied());
    let fresh = inner_apply_5th_power(&mut cs, &x, None, CustomGate::QuinticWidth4).unwrap();
    assert_eq!(fresh.get_field_value(), Some(15));
    let bad = FieldElement::allocate(Some(14), 17);
    let _ = inner_apply_5th_power(&mut cs, &x, Some(bad), CustomGate::QuinticWidth4).unwrap();
    assert!(!cs.is_satisfied());
}

#[test]
fn absent_values_stay_absent() {
    let mut cs = ConstraintSystem::new(false, 4);
    let mut s = vec![FieldElement::allocate(None, 17)];
    sbox_alpha_inv(&mut cs, &[13], &5, &mut s, CustomGate::Disabled).unwrap();
    assert_eq!(s[0].get_field_value(), None);
    assert!(cs.is_satisfied());
}
