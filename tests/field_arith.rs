use curve_gadgets::field::{add_mod, inv_mod, mul_mod, neg_mod, pow_limbs_mod, pow_mod, sub_mod};

#[test]
fn modular_operations_on_small_field() {
    assert_eq!(add_mod(10, 9, 17), 2);
    assert_eq!(sub_mod(3, 5, 17), 15);
    assert_eq!(neg_mod(0, 17), 0);
    assert_eq!(neg_mod(4, 17), 13);
    assert_eq!(mul_mod(5, 7, 17), 1);
}

#[test]
fn inverse_exists_exactly_for_units() {
    assert_eq!(inv_mod(5, 17), Some(7));
    assert_eq!(inv_mod(1, 17), Some(1));
    assert_eq!(inv_mod(0, 17), None);
    assert_eq!(inv_mod(4, 12), None);
    assert_eq!(inv_mod(5, 12), Some(5));
}

#[test]
fn powers_by_word_and_by_limbs() {
    assert_eq!(pow_mod(3, 4, 17), 13);
    assert_eq!(pow_mod(3, 0, 17), 1);
    assert_eq!(pow_limbs_mod(3, &[4], 17), 13);
    // 3^(2^64) mod 17: 3 has order 16, and 2^64 is divisible by 16
    assert_eq!(pow_limbs_mod(3, &[0, 1], 17), 1);
    assert_eq!(pow_limbs_mod(2, &[], 17), 1);
}
