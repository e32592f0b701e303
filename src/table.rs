//! A lookup table of small multiples of a fixed generator, keyed by window
//! index: row `2 * i` holds the low limb pair of a coordinate of
//! `d(i) * G`, row `2 * i + 1` the high pair, where `d(i)` is the skewed digit
//! value of `i`.
use crate::curve::{pt_mul, pt_neg, CurveParams, CurvePoint};
use crate::gadget::SynthesisError;
use crate::limbs::{coordinate_limbs, limbs_of};
use vstd::arithmetic::power2::{lemma_pow2_unfold, pow2};
use vstd::prelude::*;

verus! {

/// Largest window width: `2 * 2^window` rows still count in `u64`.
pub const MAX_WINDOW: usize = 62;

/// The skewed digit value of window index `i`: the bits of `i`, most
/// significant first, read as digits `-1` (bit set) and `+1` (bit clear).
pub open spec fn skewed_digit(i: int, window: nat) -> int {
    (pow2(window) - 1) - 2 * i
}

/// `d(i) * G`, negated where the digit is negative.
pub open spec fn table_point(i: int, window: nat, g: CurvePoint, params: CurveParams) -> Option<(int, int)> {
    let d = skewed_digit(i, window);
    let m = pt_mul(if d >= 0 { d as nat } else { (-d) as nat }, g@, params.a as int, params.p());
    if d >= 0 {
        m
    } else {
        pt_neg(m, params.p())
    }
}

/// Whether every digit of the window gives a point other than infinity.
pub open spec fn multiples_ok(window: nat, g: CurvePoint, params: CurveParams) -> bool {
    forall|i: int| 0 <= i < pow2(window) ==> #[trigger] table_point(i, window, g, params) is Some
}

/// The coordinate that row pairs `2 * i`, `2 * i + 1` decompose.
pub open spec fn table_coordinate(i: int, window: nat, g: CurvePoint, params: CurveParams, use_y: bool) -> int {
    let pt = table_point(i, window, g, params)->0;
    if use_y {
        pt.1
    } else {
        pt.0
    }
}

/// The value pair of row `k`.
pub open spec fn row_values(k: int, window: nat, g: CurvePoint, params: CurveParams, use_y: bool) -> (u64, u64) {
    let l = limbs_of(table_coordinate(k / 2, window, g, params, use_y));
    if k % 2 == 0 {
        (l[0], l[1])
    } else {
        (l[2], l[3])
    }
}

/// Key, first value and second value columns, with the key of each row its index.
#[derive(Clone, Debug)]
pub struct ScalarPointTable {
    pub keys: Vec<u64>,
    pub values0: Vec<u64>,
    pub values1: Vec<u64>,
    pub table_len: usize,
    pub name: String,
}

impl ScalarPointTable {
    pub open spec fn wf(&self) -> bool {
        &&& self.keys@.len() == self.table_len
        &&& self.values0@.len() == self.table_len
        &&& self.values1@.len() == self.table_len
        &&& forall|k: int| 0 <= k < self.table_len ==> #[trigger] self.keys@[k] == k
    }

    /// The value pair stored under `key`, if any.
    pub open spec fn lookup(&self, key: u64) -> Option<(u64, u64)> {
        if key < self.table_len {
            Some((self.values0@[key as int], self.values1@[key as int]))
        } else {
            None
        }
    }

    /// Whether the table was built for `window`, `g` and the chosen coordinate.
    pub open spec fn built_from(&self, window: nat, g: CurvePoint, params: CurveParams, use_y: bool) -> bool {
        &&& self.wf()
        &&& self.table_len == 2 * pow2(window)
        &&& forall|k: int|
            0 <= k < self.table_len ==> (#[trigger] self.values0@[k], self.values1@[k]) == row_values(
                k,
                window,
                g,
                params,
                use_y,
            )
    }

    fn build(window: usize, name: &str, generator: &CurvePoint, params: &CurveParams, use_y: bool) -> (r: Self)
        requires
            window <= MAX_WINDOW,
            2 * pow2(window as nat) <= usize::MAX,
            params.wf(),
            generator.wf(*params),
            multiples_ok(window as nat, *generator, *params),
        ensures
            r.built_from(window as nat, *generator, *params, use_y),
            r.name@ == name@,
    {
        let mut bit_window: u64 = 1;
        let mut j: usize = 0;
        proof {
            vstd::arithmetic::power2::lemma2_to64();
                vstd::arithmetic::power2::lemma2_to64_rest();
        }
        while j < window
            invariant
                j <= window <= 62,
                bit_window == pow2(j as nat),
                bit_window <= 0x4000_0000_0000_0000,
            decreases window - j,
        {
            proof {
                lemma_pow2_unfold((j + 1) as nat);
                vstd::arithmetic::power2::lemma2_to64();
                vstd::arithmetic::power2::lemma2_to64_rest();
                if j + 1 < 62 {
                    vstd::arithmetic::power2::lemma_pow2_strictly_increases((j + 1) as nat, 62);
                }
                assert(pow2((j + 1) as nat) <= 0x4000_0000_0000_0000);
                assert(bit_window * 2 == pow2((j + 1) as nat));
            }
            bit_window = bit_window * 2;
            j = j + 1;
        }
        proof {
            vstd::arithmetic::power2::lemma2_to64();
                vstd::arithmetic::power2::lemma2_to64_rest();
            if window < 62 {
                vstd::arithmetic::power2::lemma_pow2_strictly_increases(window as nat, 62);
            }
        }
        let table_len = (bit_window * 2) as usize;
        let mut keys: Vec<u64> = Vec::new();
        let mut values0: Vec<u64> = Vec::new();
        let mut values1: Vec<u64> = Vec::new();
        let mut i: u64 = 0;
        while i < bit_window
            invariant
                window <= MAX_WINDOW,
                params.wf(),
                generator.wf(*params),
                multiples_ok(window as nat, *generator, *params),
                bit_window == pow2(window as nat),
                bit_window <= 0x4000_0000_0000_0000,
                2 * bit_window <= usize::MAX,
                table_len == 2 * bit_window,
                i <= bit_window,
                keys@.len() == 2 * i,
                values0@.len() == 2 * i,
                values1@.len() == 2 * i,
                forall|k: int| 0 <= k < 2 * i ==> #[trigger] keys@[k] == k,
                forall|k: int|
                    0 <= k < 2 * i ==> (#[trigger] values0@[k], values1@[k]) == row_values(
                        k,
                        window as nat,
                        *generator,
                        *params,
                        use_y,
                    ),
            decreases bit_window - i,
        {
            let digit: i64 = (bit_window - 1) as i64 - 2 * (i as i64);
            let unsigned_number: u64 = if digit >= 0 {
                digit as u64
            } else {
                (-digit) as u64
            };
            let mut point = generator.mul(unsigned_number, params);
            if use_y && digit < 0 {
                point = point.negate(params);
            }
            proof {
                assert(table_point(i as int, window as nat, *generator, *params) is Some);
            }
            let coordinate = match point {
                CurvePoint::Affine { x, y } => if use_y {
                    y
                } else {
                    x
                },
                CurvePoint::Infinity => 0,
            };
            let limbs = coordinate_limbs(coordinate);
            keys.push(2 * i);
            keys.push(2 * i + 1);
            values0.push(limbs[0]);
            values1.push(limbs[1]);
            values0.push(limbs[2]);
            values1.push(limbs[3]);
            proof {
                let k0 = 2 * i as int;
                assert(k0 / 2 == i && k0 % 2 == 0);
                assert((k0 + 1) / 2 == i && (k0 + 1) % 2 == 1);
                assert(coordinate == table_coordinate(i as int, window as nat, *generator, *params, use_y));
            }
            i = i + 1;
        }
        ScalarPointTable { keys, values0, values1, table_len, name: name.to_string() }
    }

    /// The table over abscissae of the multiples of `generator`.
    pub fn new_x_table(window: usize, name: &str, generator: &CurvePoint, params: &CurveParams) -> (r: Self)
        requires
            window <= MAX_WINDOW,
            2 * pow2(window as nat) <= usize::MAX,
            params.wf(),
            generator.wf(*params),
            multiples_ok(window as nat, *generator, *params),
        ensures
            r.built_from(window as nat, *generator, *params, false),
            r.name@ == name@,
    {
        Self::build(window, name, generator, params, false)
    }

    /// The table over ordinates of the multiples of `generator`, negated for
    /// negative digits.
    pub fn new_y_table(window: usize, name: &str, generator: &CurvePoint, params: &CurveParams) -> (r: Self)
        requires
            window <= MAX_WINDOW,
            2 * pow2(window as nat) <= usize::MAX,
            params.wf(),
            generator.wf(*params),
            multiples_ok(window as nat, *generator, *params),
        ensures
            r.built_from(window as nat, *generator, *params, true),
            r.name@ == name@,
    {
        Self::build(window, name, generator, params, true)
    }

    pub fn name(&self) -> (r: &str)
        ensures
            r@ == self.name@,
    {
        self.name.as_str()
    }

    pub fn table_size(&self) -> (r: usize)
        ensures
            r == self.table_len,
    {
        self.table_len
    }

    pub fn num_keys(&self) -> (r: usize)
        ensures
            r == 1,
    {
        1
    }

    pub fn num_values(&self) -> (r: usize)
        ensures
            r == 2,
    {
        2
    }

    pub fn allows_combining(&self) -> (r: bool)
        ensures
            r,
    {
        true
    }

    /// The key column and the two value columns.
    pub fn get_table_values_for_polys(&self) -> (r: Vec<Vec<u64>>)
        ensures
            r@.len() == 3,
            r@[0]@ == self.keys@,
            r@[1]@ == self.values0@,
            r@[2]@ == self.values1@,
    {
        let mut r: Vec<Vec<u64>> = Vec::new();
        r.push(self.keys.clone());
        r.push(self.values0.clone());
        r.push(self.values1.clone());
        r
    }

    pub fn column_is_trivial(&self, column_num: usize) -> (r: bool)
        ensures
            !r,
    {
        false
    }

    /// Whether `values` is the pair stored under `keys[0]`.
    pub fn is_valid_entry(&self, keys: &[u64], values: &[u64]) -> (r: bool)
        requires
            self.wf(),
            keys@.len() == 1,
            values@.len() == 2,
        ensures
            r == (self.lookup(keys@[0]) == Some((values@[0], values@[1]))),
    {
        let key = keys[0];
        if key < self.table_len as u64 {
            let k = key as usize;
            self.values0[k] == values[0] && self.values1[k] == values[1]
        } else {
            false
        }
    }

    /// The pair stored under `keys[0]`; `Unsatisfiable` where there is none.
    pub fn query(&self, keys: &[u64]) -> (r: Result<Vec<u64>, SynthesisError>)
        requires
            self.wf(),
            keys@.len() == 1,
        ensures
            match self.lookup(keys@[0]) {
                Some(pair) => r matches Ok(v) && v@ == seq![pair.0, pair.1],
                None => r == Err::<Vec<u64>, SynthesisError>(SynthesisError::Unsatisfiable),
            },
    {
        let key = keys[0];
        if key < self.table_len as u64 {
            let k = key as usize;
            let mut v: Vec<u64> = Vec::new();
            v.push(self.values0[k]);
            v.push(self.values1[k]);
            Ok(v)
        } else {
            Err(SynthesisError::Unsatisfiable)
        }
    }
}

/// For every row of a table, `query` of its key gives the row's value pair,
/// and `is_valid_entry` accepts exactly that pair.
pub proof fn lemma_table_self_consistent(t: ScalarPointTable, row: int, v0: u64, v1: u64)
    requires
        t.wf(),
        0 <= row < t.table_len,
    ensures
        t.lookup(t.keys@[row]) == Some((t.values0@[row], t.values1@[row])),
        (t.lookup(t.keys@[row]) == Some((v0, v1))) == (v0 == t.values0@[row] && v1 == t.values1@[row]),
{
}

} // verus!
