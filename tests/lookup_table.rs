use curve_gadgets::curve::{CurveParams, CurvePoint, PointByScalarMulStrategy};
use curve_gadgets::gadget::SynthesisError;
use curve_gadgets::table::ScalarPointTable;

fn prime_curve() -> CurveParams {
    CurveParams {
        modulus: 1033,
        a: 0,
        b: 5,
        scalar_modulus: 1087,
        is_prime_order_curve: true,
        point_by_scalar_mul_strategy: PointByScalarMulStrategy::Basic,
        offset_x: 3,
        offset_y: 450,
    }
}

// d(i) * G for window 3, digits 7, 5, 3, 1, -1, -3, -5, -7
const MULTIPLES: [(u64, u64); 8] = [
    (562, 737),
    (572, 709),
    (726, 753),
    (1, 218),
    (1, 815),
    (726, 280),
    (572, 324),
    (562, 296),
];

fn limb_rows(v: u64) -> [(u64, u64); 2] {
    [(v % 256, (v / 256) % 256), ((v / 65536) % 256, (v / 16777216) % 256)]
}

#[test]
fn x_table_holds_abscissae_of_digit_multiples() {
    let g = CurvePoint::Affine { x: 1, y: 218 };
    let t = ScalarPointTable::new_x_table(3, "x_table", &g, &prime_curve());
    assert_eq!(t.table_size(), 16);
    assert_eq!(t.name(), "x_table");
    let cols = t.get_table_values_for_polys();
    assert_eq!(cols.len(), 3);
    for i in 0..8usize {
        let rows = limb_rows(MULTIPLES[i].0);
        for half in 0..2usize {
            let k = 2 * i + half;
            assert_eq!(cols[0][k], k as u64);
            assert_eq!((cols[1][k], cols[2][k]), rows[half]);
        }
    }
}

#[test]
fn y_table_negates_for_negative_digits() {
    let g = CurvePoint::Affine { x: 1, y: 218 };
    let t = ScalarPointTable::new_y_table(3, "y_table", &g, &prime_curve());
    let cols = t.get_table_values_for_polys();
    for i in 0..8usize {
        let rows = limb_rows(MULTIPLES[i].1);
        assert_eq!((cols[1][2 * i], cols[2][2 * i]), rows[0]);
        assert_eq!((cols[1][2 * i + 1], cols[2][2 * i + 1]), rows[1]);
    }
    // digit -1 gives -G = (1, 815): low limbs 815 % 256 = 47, 815 / 256 = 3
    assert_eq!(t.query(&[8]).unwrap(), vec![47, 3]);
}

#[test]
fn table_query_and_membership_agree_with_columns() {
    let g = CurvePoint::Affine { x: 1, y: 218 };
    let t = ScalarPointTable::new_y_table(3, "y_table", &g, &prime_curve());
    let cols = t.get_table_values_for_polys();
    for row in 0..t.table_size() {
        let key = cols[0][row];
        let pair = vec![cols[1][row], cols[2][row]];
        assert_eq!(t.query(&[key]).unwrap(), pair);
        assert!(t.is_valid_entry(&[key], &pair));
        assert!(!t.is_valid_entry(&[key], &[pair[0] + 1, pair[1]]));
        assert!(!t.is_valid_entry(&[key], &[pair[0], pair[1] + 1]));
    }
    assert_eq!(t.query(&[16]).err(), Some(SynthesisError::Unsatisfiable));
    assert!(!t.is_valid_entry(&[16], &[0, 0]));
    assert_eq!(t.num_keys(), 1);
    assert_eq!(t.num_values(), 2);
    assert!(t.allows_combining());
    assert!(!t.column_is_trivial(0));
}

#[test]
fn smallest_window_has_two_digits() {
    let g = CurvePoint::Affine { x: 1, y: 218 };
    // with window 1 the digits are 1 and -1
    let t = ScalarPointTable::new_x_table(1, "w1", &g, &prime_curve());
    assert_eq!(t.table_size(), 4);
    assert_eq!(t.query(&[0]).unwrap(), vec![1, 0]);
    assert_eq!(t.query(&[2]).unwrap(), vec![1, 0]);
}
