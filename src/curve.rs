//! Points of a short-Weierstrass curve `y^2 = x^3 + a*x + b` over a prime field.
//!
//! The group law is stated here as spec functions over pairs of integers, with
//! `None` for the point at infinity; `CurvePoint` computes it on concrete values.
use crate::field::{fadd, fdiv, fmul, fneg, fsub, modulus_ok};
use crate::limbs::{coordinate_limbs, limbs_of};
use crate::gadget::{val, Boolean, ConstraintSystem, FieldElement, SynthesisError};
use vstd::arithmetic::div_mod::{lemma_add_mod_noop, lemma_mul_mod_noop_left, lemma_small_mod};
use vstd::prelude::*;

verus! {

/// How a point is multiplied by a scalar.
#[derive(Clone, Copy, Debug, PartialEq, Eq, Structural)]
pub enum PointByScalarMulStrategy {
    Basic,
}

/// The parameters of one curve over one field.
#[derive(Clone, Copy, Debug, PartialEq, Eq, Structural)]
pub struct CurveParams {
    /// The modulus of the base field.
    pub modulus: u64,
    pub a: u64,
    pub b: u64,
    /// The order of the prime-order subgroup.
    pub scalar_modulus: u64,
    /// Whether the whole group has prime order.
    pub is_prime_order_curve: bool,
    pub point_by_scalar_mul_strategy: PointByScalarMulStrategy,
    /// A fixed public point, of unknown discrete logarithm, that scalar
    /// multiplication adds to its accumulator.
    pub offset_x: u64,
    pub offset_y: u64,
}

impl CurveParams {
    pub open spec fn wf(&self) -> bool {
        &&& modulus_ok(self.modulus as int)
        &&& modulus_ok(self.scalar_modulus as int)
        &&& self.a < self.modulus
        &&& self.b < self.modulus
        &&& self.offset_x < self.modulus
        &&& self.offset_y < self.modulus
    }

    pub open spec fn p(&self) -> int {
        self.modulus as int
    }
}

/// Whether `(x, y)` satisfies the curve equation.
pub open spec fn on_curve(pt: (int, int), a: int, b: int, p: int) -> bool {
    (pt.1 * pt.1) % p == (pt.0 * pt.0 * pt.0 + a * pt.0 + b) % p
}

/// The third point on the line of slope `l` through `p1` and a point with abscissa
/// `x2`, reflected: `x3 = l^2 - x2 - x1`, `y3 = l * (x1 - x3) - y1`.
pub open spec fn chord(p1: (int, int), x2: int, l: int, p: int) -> (int, int) {
    let x3 = fsub(fsub(fmul(l, l, p), x2, p), p1.0, p);
    (x3, fsub(fmul(l, fsub(p1.0, x3, p), p), p1.1, p))
}

/// The slope through two points of distinct abscissae.
pub open spec fn chord_slope(p1: (int, int), p2: (int, int), p: int) -> int {
    fdiv(fsub(p2.1, p1.1, p), fsub(p2.0, p1.0, p), p)
}

/// `p1 + p2` for points of distinct abscissae.
pub open spec fn ec_add(p1: (int, int), p2: (int, int), p: int) -> (int, int) {
    chord(p1, p2.0, chord_slope(p1, p2, p), p)
}

/// `-p1`.
pub open spec fn ec_neg(p1: (int, int), p: int) -> (int, int) {
    (p1.0, fneg(p1.1, p))
}

/// `p1 - p2` for points of distinct abscissae: the slope through `p1` and `-p2`
/// is `-(y2 + y1) / (x2 - x1)`, and with `l = (y2 + y1) / (x2 - x1)`
/// the result is `(l^2 - x1 - x2, l * (x3 - x1) - y1)`.
pub open spec fn ec_sub(p1: (int, int), p2: (int, int), p: int) -> (int, int) {
    let l = fdiv(fadd(p2.1, p1.1, p), fsub(p2.0, p1.0, p), p);
    let x3 = fsub(fsub(fmul(l, l, p), p1.0, p), p2.0, p);
    (x3, fsub(fmul(l, fsub(x3, p1.0, p), p), p1.1, p))
}

/// The tangent slope `(3 * x^2 + a) / (2 * y)`.
pub open spec fn tangent_slope(p1: (int, int), a: int, p: int) -> int {
    let sq = fmul(p1.0, p1.0, p);
    fdiv(fadd(fadd(fadd(sq, sq, p), sq, p), a, p), fadd(p1.1, p1.1, p), p)
}

/// `2 * p1` for a point with nonzero ordinate.
pub open spec fn ec_double(p1: (int, int), a: int, p: int) -> (int, int) {
    chord(p1, p1.0, tangent_slope(p1, a, p), p)
}

/// `2 * p1 + p2`, computed as `p1 + (p1 + p2)` with one shared slope: with
/// `l` the slope through `p1` and `p2` and `x3` the abscissa of `p1 + p2`,
/// `t = l + 2 * y1 / (x3 - x1)`, `x4 = t^2 - x1 - x3`, `y4 = t * (x4 - x1) - y1`.
pub open spec fn ec_double_and_add(p1: (int, int), p2: (int, int), p: int) -> (int, int) {
    let l = chord_slope(p1, p2, p);
    let x3 = fsub(fsub(fmul(l, l, p), p2.0, p), p1.0, p);
    let t = fadd(l, fdiv(fadd(p1.1, p1.1, p), fsub(x3, p1.0, p), p), p);
    let x4 = fsub(fsub(fmul(t, t, p), p1.0, p), x3, p);
    (x4, fsub(fmul(t, fsub(x4, p1.0, p), p), p1.1, p))
}

/// The group law, `None` standing for the point at infinity.
pub open spec fn pt_add(q1: Option<(int, int)>, q2: Option<(int, int)>, a: int, p: int) -> Option<(int, int)> {
    match (q1, q2) {
        (None, _) => q2,
        (_, None) => q1,
        (Some(p1), Some(p2)) => if p1.0 != p2.0 {
            Some(ec_add(p1, p2, p))
        } else if p1.1 == p2.1 && p1.1 != 0 {
            Some(ec_double(p1, a, p))
        } else {
            None
        },
    }
}

pub open spec fn pt_neg(q: Option<(int, int)>, p: int) -> Option<(int, int)> {
    match q {
        None => None,
        Some(p1) => Some(ec_neg(p1, p)),
    }
}

/// `k * q`.
pub open spec fn pt_mul(k: nat, q: Option<(int, int)>, a: int, p: int) -> Option<(int, int)>
    decreases k,
{
    if k == 0 {
        None
    } else {
        let h = pt_mul(k / 2, q, a, p);
        let d = pt_add(h, h, a, p);
        if k % 2 == 1 {
            pt_add(d, q, a, p)
        } else {
            d
        }
    }
}

/// `q` added to itself `k` times.
pub open spec fn pt_repeat(k: nat, q: Option<(int, int)>, a: int, p: int) -> Option<(int, int)>
    decreases k,
{
    if k == 0 {
        None
    } else {
        pt_add(pt_repeat((k - 1) as nat, q, a, p), q, a, p)
    }
}

/// Whether `w * d == n` holds for `w = n / d`: always where `d` is invertible.
pub open spec fn division_ok(n: int, d: int, p: int) -> bool {
    fmul(fdiv(n, d, p), d, p) == n
}

/// The relation that the addition of `p1` and `p2` enforces.
pub open spec fn ec_add_ok(p1: (int, int), p2: (int, int), p: int) -> bool {
    division_ok(fsub(p2.1, p1.1, p), fsub(p2.0, p1.0, p), p)
}

/// The relation that the subtraction of `p2` from `p1` enforces.
pub open spec fn ec_sub_ok(p1: (int, int), p2: (int, int), p: int) -> bool {
    division_ok(fadd(p2.1, p1.1, p), fsub(p2.0, p1.0, p), p)
}

/// The relation that the doubling of `p1` enforces.
pub open spec fn ec_double_ok(p1: (int, int), a: int, p: int) -> bool {
    let sq = fmul(p1.0, p1.0, p);
    division_ok(fadd(fadd(fadd(sq, sq, p), sq, p), a, p), fadd(p1.1, p1.1, p), p)
}

/// The relations that the fused doubling and addition enforces.
pub open spec fn ec_double_and_add_ok(p1: (int, int), p2: (int, int), p: int) -> bool {
    let l = chord_slope(p1, p2, p);
    let x3 = fsub(fsub(fmul(l, l, p), p2.0, p), p1.0, p);
    ec_add_ok(p1, p2, p) && division_ok(fadd(p1.1, p1.1, p), fsub(x3, p1.0, p), p)
}

/// The abscissa of a known point.
pub open spec fn abscissa(q: Option<(int, int)>) -> int {
    match q {
        Some(pt) => pt.0,
        None => 0,
    }
}

/// `Some(r)` where both points are known.
pub open spec fn lift2(q1: Option<(int, int)>, q2: Option<(int, int)>, r: (int, int)) -> Option<(int, int)> {
    if q1 is Some && q2 is Some {
        Some(r)
    } else {
        None
    }
}

/// `Some(r)` where the point is known.
pub open spec fn lift1(q: Option<(int, int)>, r: (int, int)) -> Option<(int, int)> {
    if q is Some {
        Some(r)
    } else {
        None
    }
}

/// The relation `holds` where both points are known.
pub open spec fn when2(q1: Option<(int, int)>, q2: Option<(int, int)>, holds: bool) -> bool {
    q1 is Some && q2 is Some ==> holds
}

/// A concrete point of the curve, or the point at infinity.
#[derive(Clone, Copy, Debug, PartialEq, Eq, Structural)]
pub enum CurvePoint {
    Infinity,
    Affine { x: u64, y: u64 },
}

impl CurvePoint {
    pub open spec fn view(&self) -> Option<(int, int)> {
        match *self {
            CurvePoint::Infinity => None,
            CurvePoint::Affine { x, y } => Some((x as int, y as int)),
        }
    }

    pub open spec fn wf(&self, params: CurveParams) -> bool {
        match *self {
            CurvePoint::Infinity => true,
            CurvePoint::Affine { x, y } => x < params.modulus && y < params.modulus,
        }
    }

    pub fn is_zero(&self) -> (r: bool)
        ensures
            r == (self@ is None),
    {
        match self {
            CurvePoint::Infinity => true,
            _ => false,
        }
    }

    pub fn from_xy(x: u64, y: u64) -> (r: Self)
        ensures
            r@ == Some((x as int, y as int)),
    {
        CurvePoint::Affine { x, y }
    }

    pub fn is_on_curve(&self, params: &CurveParams) -> (r: bool)
        requires
            params.wf(),
            self.wf(*params),
        ensures
            r == match self@ {
                None => true,
                Some(pt) => on_curve(pt, params.a as int, params.b as int, params.p()),
            },
    {
        match *self {
            CurvePoint::Infinity => true,
            CurvePoint::Affine { x, y } => {
                let fx = FieldElement::constant(x, params.modulus);
                let fy = FieldElement::constant(y, params.modulus);
                let lhs = fy.square();
                let rhs = curve_rhs(&fx, params);
                lhs.value == rhs.value
            },
        }
    }

    pub fn negate(&self, params: &CurveParams) -> (r: Self)
        requires
            params.wf(),
            self.wf(*params),
        ensures
            r.wf(*params),
            r@ == pt_neg(self@, params.p()),
    {
        match *self {
            CurvePoint::Infinity => CurvePoint::Infinity,
            CurvePoint::Affine { x, y } => {
                let fy = FieldElement::constant(y, params.modulus).negate();
                CurvePoint::Affine { x, y: fy.value.unwrap() }
            },
        }
    }

    /// The group law on concrete points.
    pub fn add(&self, other: &Self, params: &CurveParams) -> (r: Self)
        requires
            params.wf(),
            self.wf(*params),
            other.wf(*params),
        ensures
            r.wf(*params),
            r@ == pt_add(self@, other@, params.a as int, params.p()),
    {
        match (*self, *other) {
            (CurvePoint::Infinity, _) => *other,
            (_, CurvePoint::Infinity) => *self,
            (CurvePoint::Affine { x: x1, y: y1 }, CurvePoint::Affine { x: x2, y: y2 }) => {
                let p = params.modulus;
                let mut cs = ConstraintSystem::new(false, 4);
                let fx1 = FieldElement::constant(x1, p);
                let fy1 = FieldElement::constant(y1, p);
                let r = if x1 != x2 {
                    let fx2 = FieldElement::constant(x2, p);
                    let fy2 = FieldElement::constant(y2, p);
                    let (x3, y3) = add_coords(&mut cs, &fx1, &fy1, &fx2, &fy2);
                    CurvePoint::Affine { x: x3.value.unwrap(), y: y3.value.unwrap() }
                } else if y1 == y2 && y1 != 0 {
                    let fa = FieldElement::constant(params.a, p);
                    let (x3, y3) = double_coords(&mut cs, &fx1, &fy1, &fa);
                    CurvePoint::Affine { x: x3.value.unwrap(), y: y3.value.unwrap() }
                } else {
                    CurvePoint::Infinity
                };
                r
            },
        }
    }

    /// `k * self`, by double and add from the most significant bit.
    pub fn mul(&self, k: u64, params: &CurveParams) -> (r: Self)
        requires
            params.wf(),
            self.wf(*params),
        ensures
            r.wf(*params),
            r@ == pt_mul(k as nat, self@, params.a as int, params.p()),
        decreases k,
    {
        if k == 0 {
            return CurvePoint::Infinity;
        }
        let h = self.mul(k / 2, params);
        let d = h.add(&h, params);
        if k % 2 == 1 {
            d.add(self, params)
        } else {
            d
        }
    }
}

/// `x^3 + a*x + b`, with the linear term left out where `a` is zero.
fn curve_rhs(x: &FieldElement, params: &CurveParams) -> (r: FieldElement)
    requires
        params.wf(),
        x.wf(),
        x.modulus == params.modulus,
    ensures
        r.wf(),
        r.modulus == params.modulus,
        r.value == match x.value {
            Some(v) => Some(((v * v * v + params.a * v + params.b) % params.p()) as u64),
            None => None,
        },
{
    let a = FieldElement::constant(params.a, params.modulus);
    let b = FieldElement::constant(params.b, params.modulus);
    let x_squared = x.square();
    let x_cubed = x_squared.mul(x);
    let r = if params.a == 0 {
        x_cubed.add(&b)
    } else {
        x.mul(&a).add(&x_cubed).add(&b)
    };
    proof {
        if x.value is Some {
            let v = val(x.value);
            let p = params.p();
            lemma_mul_mod_noop_left(v * v, v, p);
            let c = (v * v * v) % p;
            let ax = (v * params.a) % p;
            if params.a == 0 {
                lemma_add_mod_noop(v * v * v, params.b as int, p);
                lemma_small_mod(params.b as nat, p as nat);
            } else {
                lemma_add_mod_noop(v * params.a, v * v * v, p);
                lemma_add_mod_noop(v * params.a + v * v * v, params.b as int, p);
                lemma_small_mod(params.b as nat, p as nat);
                lemma_small_mod(((ax + c) % p) as nat, p as nat);
                assert(v * params.a == params.a * v) by (nonlinear_arith);
            }
        }
    }
    r
}

/// The coordinates of `(x1, y1) + (x2, y2)`; one division, whose relation is enforced.
fn add_coords(
    cs: &mut ConstraintSystem,
    x1: &FieldElement,
    y1: &FieldElement,
    x2: &FieldElement,
    y2: &FieldElement,
) -> (r: (FieldElement, FieldElement))
    requires
        x1.compatible(y1),
        x1.compatible(x2),
        x1.compatible(y2),
        x1.value is Some == y1.value is Some,
        x2.value is Some == y2.value is Some,
    ensures
        r.0.wf(),
        r.1.wf(),
        r.0.modulus == x1.modulus,
        r.1.modulus == x1.modulus,
        r.0.value is Some == (x1.value is Some && x2.value is Some),
        r.1.value is Some == (x1.value is Some && x2.value is Some),
        x1.value is Some && x2.value is Some ==> (val(r.0.value), val(r.1.value)) == ec_add(
            (val(x1.value), val(y1.value)),
            (val(x2.value), val(y2.value)),
            x1.p(),
        ),
        *final(cs) == old(cs).enforced(
            x1.value is Some && x2.value is Some ==> ec_add_ok(
                (val(x1.value), val(y1.value)),
                (val(x2.value), val(y2.value)),
                x1.p(),
            ),
        ),
{
    let dx = x2.sub(x1);
    let dy = y2.sub(y1);
    let lambda = FieldElement::div(cs, &dy, &dx);
    let new_x = lambda.square().sub(x2).sub(x1);
    let new_y = lambda.mul(&x1.sub(&new_x)).sub(y1);
    (new_x, new_y)
}

/// The coordinates of `2 * (x, y)` on a curve with coefficient `a`.
fn double_coords(cs: &mut ConstraintSystem, x: &FieldElement, y: &FieldElement, a: &FieldElement) -> (r: (
    FieldElement,
    FieldElement,
))
    requires
        x.compatible(y),
        x.compatible(a),
        a.value is Some,
        x.value is Some == y.value is Some,
    ensures
        r.0.wf(),
        r.1.wf(),
        r.0.modulus == x.modulus,
        r.1.modulus == x.modulus,
        r.0.value is Some == x.value is Some,
        r.1.value is Some == x.value is Some,
        x.value is Some ==> (val(r.0.value), val(r.1.value)) == ec_double(
            (val(x.value), val(y.value)),
            val(a.value),
            x.p(),
        ),
        *final(cs) == old(cs).enforced(
            x.value is Some ==> ec_double_ok((val(x.value), val(y.value)), val(a.value), x.p()),
        ),
{
    let x_squared = x.square();
    let num = x_squared.add(&x_squared).add(&x_squared).add(a);
    let two_y = y.double();
    let lambda = FieldElement::div(cs, &num, &two_y);
    let new_x = lambda.square().sub(x).sub(x);
    let new_y = lambda.mul(&x.sub(&new_x)).sub(y);
    (new_x, new_y)
}

/// The coordinates of `(x1, y1) - (x2, y2)`; one division, whose relation is enforced.
fn sub_coords(
    cs: &mut ConstraintSystem,
    x1: &FieldElement,
    y1: &FieldElement,
    x2: &FieldElement,
    y2: &FieldElement,
) -> (r: (FieldElement, FieldElement))
    requires
        x1.compatible(y1),
        x1.compatible(x2),
        x1.compatible(y2),
        x1.value is Some == y1.value is Some,
        x2.value is Some == y2.value is Some,
    ensures
        r.0.wf(),
        r.1.wf(),
        r.0.modulus == x1.modulus,
        r.1.modulus == x1.modulus,
        r.0.value is Some == (x1.value is Some && x2.value is Some),
        r.1.value is Some == (x1.value is Some && x2.value is Some),
        x1.value is Some && x2.value is Some ==> (val(r.0.value), val(r.1.value)) == ec_sub(
            (val(x1.value), val(y1.value)),
            (val(x2.value), val(y2.value)),
            x1.p(),
        ),
        *final(cs) == old(cs).enforced(
            x1.value is Some && x2.value is Some ==> ec_sub_ok(
                (val(x1.value), val(y1.value)),
                (val(x2.value), val(y2.value)),
                x1.p(),
            ),
        ),
{
    let dx = x2.sub(x1);
    let sy = y2.add(y1);
    let lambda = FieldElement::div(cs, &sy, &dx);
    let new_x = lambda.square().sub(x1).sub(x2);
    let new_y = lambda.mul(&new_x.sub(x1)).sub(y1);
    (new_x, new_y)
}

/// The coordinates of `2 * (x1, y1) + (x2, y2)`, through `(x1, y1) + ((x1, y1) + (x2, y2))`.
fn double_and_add_coords(
    cs: &mut ConstraintSystem,
    x1: &FieldElement,
    y1: &FieldElement,
    x2: &FieldElement,
    y2: &FieldElement,
) -> (r: (FieldElement, FieldElement))
    requires
        x1.compatible(y1),
        x1.compatible(x2),
        x1.compatible(y2),
        x1.value is Some == y1.value is Some,
        x2.value is Some == y2.value is Some,
    ensures
        r.0.wf(),
        r.1.wf(),
        r.0.modulus == x1.modulus,
        r.1.modulus == x1.modulus,
        r.0.value is Some == (x1.value is Some && x2.value is Some),
        r.1.value is Some == (x1.value is Some && x2.value is Some),
        x1.value is Some && x2.value is Some ==> (val(r.0.value), val(r.1.value))
            == ec_double_and_add(
            (val(x1.value), val(y1.value)),
            (val(x2.value), val(y2.value)),
            x1.p(),
        ),
        *final(cs) == old(cs).enforced(
            x1.value is Some && x2.value is Some ==> ec_double_and_add_ok(
                (val(x1.value), val(y1.value)),
                (val(x2.value), val(y2.value)),
                x1.p(),
            ),
        ),
{
    let dx = x2.sub(x1);
    let dy = y2.sub(y1);
    let lambda = FieldElement::div(cs, &dy, &dx);
    let x3 = lambda.square().sub(x2).sub(x1);
    let x3_minus_x1 = x3.sub(x1);
    let two_y = y1.double();
    let t0 = FieldElement::div(cs, &two_y, &x3_minus_x1);
    let t1 = lambda.add(&t0);
    let new_x = t1.square().sub(x1).sub(&x3);
    let new_y = t1.mul(&new_x.sub(x1)).sub(y1);
    (new_x, new_y)
}

/// Whether the witness given is the point at infinity.
pub open spec fn identity_given(value: Option<CurvePoint>) -> bool {
    value matches Some(v) && v@ is None
}

/// The coordinates of a witness, where given.
pub open spec fn given_point(value: Option<CurvePoint>) -> Option<(int, int)> {
    match value {
        Some(v) => v@,
        None => None,
    }
}

/// The limbs of a coordinate, as a range check decomposes it.
#[derive(Clone, Debug)]
pub struct RangeCheckDecomposition {
    pub limbs: Option<Vec<u64>>,
}

/// A point of the curve in a circuit: never the point at infinity.
#[derive(Clone, Copy, Debug)]
pub struct AffinePoint {
    pub x: FieldElement,
    pub y: FieldElement,
    /// Whether the point is known to lie in the prime-order subgroup.
    pub is_in_subgroup: bool,
    pub circuit_params: CurveParams,
}

impl AffinePoint {
    pub open spec fn wf(&self) -> bool {
        &&& self.circuit_params.wf()
        &&& self.x.wf()
        &&& self.y.wf()
        &&& self.x.modulus == self.circuit_params.modulus
        &&& self.y.modulus == self.circuit_params.modulus
        &&& self.x.value is Some == self.y.value is Some
    }

    /// The point's coordinates where its witness is present.
    pub open spec fn view(&self) -> Option<(int, int)> {
        if self.x.value is Some && self.y.value is Some {
            Some((val(self.x.value), val(self.y.value)))
        } else {
            None
        }
    }

    pub open spec fn p(&self) -> int {
        self.circuit_params.p()
    }

    pub open spec fn a(&self) -> int {
        self.circuit_params.a as int
    }

    pub open spec fn b(&self) -> int {
        self.circuit_params.b as int
    }

    pub open spec fn same_curve(&self, o: &Self) -> bool {
        self.wf() && o.wf() && self.circuit_params == o.circuit_params
    }

    pub fn get_x(&self) -> (r: FieldElement)
        ensures
            r == self.x,
    {
        self.x
    }

    pub fn get_y(&self) -> (r: FieldElement)
        ensures
            r == self.y,
    {
        self.y
    }

    /// The concrete point, where the witness is present.
    pub fn get_value(&self) -> (r: Option<CurvePoint>)
        requires
            self.wf(),
        ensures
            r matches Some(v) ==> v@ == self@,
            r is None == self@ is None,
    {
        match (self.x.value, self.y.value) {
            (Some(x), Some(y)) => Some(CurvePoint::Affine { x, y }),
            _ => None,
        }
    }

    pub fn is_constant(&self) -> (r: bool)
        ensures
            r == (self.x.is_constant && self.y.is_constant),
    {
        self.x.is_constant && self.y.is_constant
    }

    /// Allocates a point from an optional witness. With `require_checks` the
    /// point is enforced to be on the curve and in the prime-order subgroup.
    /// Also returns the range-check decompositions of both coordinates.
    pub fn alloc_ext(
        cs: &mut ConstraintSystem,
        value: Option<CurvePoint>,
        params: &CurveParams,
        require_checks: bool,
    ) -> (r: Result<(Self, RangeCheckDecomposition, RangeCheckDecomposition), SynthesisError>)
        requires
            params.wf(),
            value matches Some(v) ==> v.wf(*params),
        ensures
            identity_given(value) ==> r == Err::<
                (Self, RangeCheckDecomposition, RangeCheckDecomposition),
                SynthesisError,
            >(SynthesisError::UnexpectedIdentity) && *final(cs) == *old(cs),
            !identity_given(value) ==> (r matches Ok(t) && {
                let pt = t.0;
                &&& pt.wf()
                &&& pt.circuit_params == *params
                &&& !pt.x.is_constant && !pt.y.is_constant
                &&& pt@ == given_point(value)
                &&& pt.is_in_subgroup == (require_checks || params.is_prime_order_curve)
                &&& *final(cs) == if require_checks {
                    old(cs).enforced(pt.on_curve_holds() && pt.in_subgroup_holds())
                } else {
                    *old(cs)
                }
            }),
    {
        let (x, y) = match value {
            Some(CurvePoint::Infinity) => {
                return Err(SynthesisError::UnexpectedIdentity);
            },
            Some(CurvePoint::Affine { x, y }) => (Some(x), Some(y)),
            None => (None, None),
        };
        let x_decomposition = RangeCheckDecomposition { limbs: decompose(x) };
        let y_decomposition = RangeCheckDecomposition { limbs: decompose(y) };
        let fx = FieldElement::allocate(x, params.modulus);
        let fy = FieldElement::allocate(y, params.modulus);
        let is_in_subgroup = require_checks || params.is_prime_order_curve;
        let new = AffinePoint { x: fx, y: fy, is_in_subgroup, circuit_params: *params };
        if require_checks {
            new.enforce_if_on_curve(cs);
            new.enforce_if_in_subgroup(cs);
        }
        Ok((new, x_decomposition, y_decomposition))
    }

    /// Allocates a point that is enforced to be on the curve and in the subgroup.
    pub fn allocate(cs: &mut ConstraintSystem, value: Option<CurvePoint>, params: &CurveParams) -> (r:
        Result<Self, SynthesisError>)
        requires
            params.wf(),
            value matches Some(v) ==> v.wf(*params),
        ensures
            identity_given(value) ==> r == Err::<Self, SynthesisError>(
                SynthesisError::UnexpectedIdentity,
            ) && *final(cs) == *old(cs),
            !identity_given(value) ==> (r matches Ok(pt) && pt.wf() && pt.circuit_params == *params
                && pt.is_in_subgroup && pt@ == given_point(value) && *final(cs) == old(cs).enforced(
                pt.on_curve_holds() && pt.in_subgroup_holds(),
            )),
    {
        match Self::alloc_ext(cs, value, params, true) {
            Ok((new, _x_decomposition, _y_decomposition)) => Ok(new),
            Err(e) => Err(e),
        }
    }

    /// Allocates a point without enforcing that it is on the curve or in the subgroup.
    pub fn alloc_unchecked(cs: &mut ConstraintSystem, value: Option<CurvePoint>, params: &CurveParams) -> (r:
        Result<Self, SynthesisError>)
        requires
            params.wf(),
            value matches Some(v) ==> v.wf(*params),
        ensures
            identity_given(value) ==> r == Err::<Self, SynthesisError>(
                SynthesisError::UnexpectedIdentity,
            ),
            !identity_given(value) ==> (r matches Ok(pt) && pt.wf() && pt.circuit_params == *params
                && pt.is_in_subgroup == params.is_prime_order_curve && pt@ == given_point(value)),
            *final(cs) == *old(cs),
    {
        match Self::alloc_ext(cs, value, params, false) {
            Ok((new, _x_decomposition, _y_decomposition)) => Ok(new),
            Err(e) => Err(e),
        }
    }

    /// A point from two coordinates, with nothing enforced.
    pub fn from_xy_unchecked(x: FieldElement, y: FieldElement, params: &CurveParams) -> (r: Self)
        requires
            params.wf(),
            x.wf(),
            y.wf(),
            x.modulus == params.modulus,
            y.modulus == params.modulus,
            x.value is Some == y.value is Some,
        ensures
            r.wf(),
            r.x == x,
            r.y == y,
            r.circuit_params == *params,
            r.is_in_subgroup == params.is_prime_order_curve,
    {
        AffinePoint { x, y, is_in_subgroup: params.is_prime_order_curve, circuit_params: *params }
    }

    /// A point known when the circuit is defined. Whether it lies in the
    /// subgroup is computed out of the circuit: `r * value` is the point at infinity.
    pub fn constant(value: CurvePoint, params: &CurveParams) -> (r: Self)
        requires
            params.wf(),
            value.wf(*params),
            value@ is Some,
        ensures
            r.wf(),
            r@ == value@,
            r.x.is_constant && r.y.is_constant,
            r.circuit_params == *params,
            r.is_in_subgroup == (pt_mul(params.scalar_modulus as nat, value@, params.a as int, params.p()) is None),
    {
        let is_in_subgroup = value.mul(params.scalar_modulus, params).is_zero();
        let (x, y) = match value {
            CurvePoint::Affine { x, y } => (x, y),
            CurvePoint::Infinity => (0, 0),
        };
        let fx = FieldElement::constant(x, params.modulus);
        let fy = FieldElement::constant(y, params.modulus);
        AffinePoint { x: fx, y: fy, is_in_subgroup, circuit_params: *params }
    }

    /// Whether the witness satisfies the curve equation, where present.
    pub open spec fn on_curve_holds(&self) -> bool {
        self@ matches Some(pt) ==> on_curve(pt, self.a(), self.b(), self.p())
    }

    /// Whether the witness lies in the prime-order subgroup, where present and
    /// where the curve is not known to have prime order.
    pub open spec fn in_subgroup_holds(&self) -> bool {
        !self.circuit_params.is_prime_order_curve ==> (self@ is Some ==> pt_mul(
            self.circuit_params.scalar_modulus as nat,
            self@,
            self.a(),
            self.p(),
        ) is None)
    }

    /// Enforces `y^2 == x^3 + a*x + b`.
    pub fn enforce_if_on_curve(&self, cs: &mut ConstraintSystem)
        requires
            self.wf(),
        ensures
            *final(cs) == old(cs).enforced(self.on_curve_holds()),
    {
        let lhs = self.y.square();
        let rhs = curve_rhs(&self.x, &self.circuit_params);
        FieldElement::enforce_equal(cs, &lhs, &rhs);
    }

    /// Enforces that the point lies in the prime-order subgroup: a no-op on a
    /// curve of prime order, else the relation `r * self == O`.
    pub fn enforce_if_in_subgroup(&self, cs: &mut ConstraintSystem)
        requires
            self.wf(),
        ensures
            *final(cs) == old(cs).enforced(self.in_subgroup_holds()),
    {
        if self.circuit_params.is_prime_order_curve {
            return;
        }
        let holds = match self.get_value() {
            Some(v) => Some(v.mul(self.circuit_params.scalar_modulus, &self.circuit_params).is_zero()),
            None => None,
        };
        cs.enforce(holds);
    }

    pub fn enforce_equal(cs: &mut ConstraintSystem, this: &Self, other: &Self)
        requires
            this.same_curve(other),
        ensures
            *final(cs) == old(cs).enforced(when2(this@, other@, this@ == other@)),
    {
        FieldElement::enforce_equal(cs, &this.x, &other.x);
        FieldElement::enforce_equal(cs, &this.y, &other.y);
    }

    /// Whether the two points are equal, as a witness.
    pub fn equals(this: &Self, other: &Self) -> (r: Boolean)
        requires
            this.same_curve(other),
        ensures
            r.value == if this@ is Some && other@ is Some {
                Some(this@ == other@)
            } else {
                None
            },
    {
        let x_check = FieldElement::equals(&this.x, &other.x);
        let y_check = FieldElement::equals(&this.y, &other.y);
        let value = match (x_check.value, y_check.value) {
            (Some(a), Some(b)) => Some(a && b),
            _ => None,
        };
        Boolean { value, is_constant: x_check.is_constant && y_check.is_constant }
    }

    pub fn negate(&self) -> (r: Self)
        requires
            self.wf(),
        ensures
            r.wf(),
            r.circuit_params == self.circuit_params,
            r.is_in_subgroup == self.is_in_subgroup,
            r.x == self.x,
            r@ == lift1(self@, ec_neg(self@->0, self.p())),
    {
        let y_negated = self.y.negate();
        AffinePoint { x: self.x, y: y_negated, is_in_subgroup: self.is_in_subgroup, circuit_params: self.circuit_params }
    }

    /// The negation where `flag` is set, else the point itself.
    pub fn conditionally_negate(&self, flag: &Boolean) -> (r: Self)
        requires
            self.wf(),
        ensures
            r.wf(),
            r.circuit_params == self.circuit_params,
            r.is_in_subgroup == self.is_in_subgroup,
            r@ == match flag.value {
                Some(true) => lift1(self@, ec_neg(self@->0, self.p())),
                Some(false) => self@,
                None => None,
            },
    {
        let x = FieldElement::conditionally_select(flag, &self.x, &self.x);
        let y_negated = self.y.conditionally_negate(flag);
        AffinePoint { x, y: y_negated, is_in_subgroup: self.is_in_subgroup, circuit_params: self.circuit_params }
    }

    /// `first` where `flag` is set, else `second`.
    pub fn select(flag: &Boolean, first: &Self, second: &Self) -> (r: Self)
        requires
            first.same_curve(second),
        ensures
            r.wf(),
            r.circuit_params == first.circuit_params,
            r@ == match flag.value {
                Some(true) => first@,
                Some(false) => second@,
                None => None,
            },
    {
        let x = FieldElement::conditionally_select(flag, &first.x, &second.x);
        let y = FieldElement::conditionally_select(flag, &first.y, &second.y);
        AffinePoint {
            x,
            y,
            is_in_subgroup: first.is_in_subgroup && second.is_in_subgroup,
            circuit_params: first.circuit_params,
        }
    }

    /// `self + other` for points of distinct abscissae, which the caller guarantees.
    pub fn add_unequal_unchecked(&self, cs: &mut ConstraintSystem, other: &Self) -> (r: Self)
        requires
            self.same_curve(other),
        ensures
            r.wf(),
            r.circuit_params == self.circuit_params,
            r@ == lift2(self@, other@, ec_add(self@->0, other@->0, self.p())),
            *final(cs) == old(cs).enforced(
                when2(self@, other@, ec_add_ok(self@->0, other@->0, self.p())),
            ),
    {
        let (x, y) = add_coords(cs, &self.x, &self.y, &other.x, &other.y);
        AffinePoint {
            x,
            y,
            is_in_subgroup: self.is_in_subgroup && other.is_in_subgroup,
            circuit_params: self.circuit_params,
        }
    }

    /// `self + other`, enforcing that the abscissae differ.
    pub fn add_unequal(&self, cs: &mut ConstraintSystem, other: &Self) -> (r: Self)
        requires
            self.same_curve(other),
        ensures
            r.wf(),
            r.circuit_params == self.circuit_params,
            r@ == lift2(self@, other@, ec_add(self@->0, other@->0, self.p())),
            *final(cs) == old(cs).enforced(
                when2(
                    self@,
                    other@,
                    abscissa(self@) != abscissa(other@) && ec_add_ok(self@->0, other@->0, self.p()),
                ),
            ),
    {
        FieldElement::enforce_not_equal(cs, &self.x, &other.x);
        self.add_unequal_unchecked(cs, other)
    }

    /// `self - other` for points of distinct abscissae, which the caller guarantees.
    pub fn sub_unequal_unchecked(&self, cs: &mut ConstraintSystem, other: &Self) -> (r: Self)
        requires
            self.same_curve(other),
        ensures
            r.wf(),
            r.circuit_params == self.circuit_params,
            r@ == lift2(self@, other@, ec_sub(self@->0, other@->0, self.p())),
            *final(cs) == old(cs).enforced(
                when2(self@, other@, ec_sub_ok(self@->0, other@->0, self.p())),
            ),
    {
        let (x, y) = sub_coords(cs, &self.x, &self.y, &other.x, &other.y);
        AffinePoint {
            x,
            y,
            is_in_subgroup: self.is_in_subgroup && other.is_in_subgroup,
            circuit_params: self.circuit_params,
        }
    }

    /// `self - other`, enforcing that the abscissae differ.
    pub fn sub_unequal(&self, cs: &mut ConstraintSystem, other: &Self) -> (r: Self)
        requires
            self.same_curve(other),
        ensures
            r.wf(),
            r.circuit_params == self.circuit_params,
            r@ == lift2(self@, other@, ec_sub(self@->0, other@->0, self.p())),
            *final(cs) == old(cs).enforced(
                when2(
                    self@,
                    other@,
                    abscissa(self@) != abscissa(other@) && ec_sub_ok(self@->0, other@->0, self.p()),
                ),
            ),
    {
        FieldElement::enforce_not_equal(cs, &self.x, &other.x);
        self.sub_unequal_unchecked(cs, other)
    }

    /// `2 * self` on a curve with any coefficient `a`: `l = (3 * x^2 + a) / (2 * y)`.
    pub fn tangent_double(&self, cs: &mut ConstraintSystem) -> (r: Self)
        requires
            self.wf(),
        ensures
            r.wf(),
            r.circuit_params == self.circuit_params,
            r.is_in_subgroup == self.is_in_subgroup,
            r@ == lift1(self@, ec_double(self@->0, self.a(), self.p())),
            *final(cs) == old(cs).enforced(
                self@ is Some ==> ec_double_ok(self@->0, self.a(), self.p()),
            ),
    {
        let a = FieldElement::constant(self.circuit_params.a, self.circuit_params.modulus);
        let (x, y) = double_coords(cs, &self.x, &self.y, &a);
        AffinePoint { x, y, is_in_subgroup: self.is_in_subgroup, circuit_params: self.circuit_params }
    }

    /// `2 * self`: `l = 3 * x^2 / (2 * y)`, on a curve whose coefficient `a` is zero.
    pub fn double(&self, cs: &mut ConstraintSystem) -> (r: Self)
        requires
            self.wf(),
            self.circuit_params.a == 0,
        ensures
            r.wf(),
            r.circuit_params == self.circuit_params,
            r@ == lift1(self@, ec_double(self@->0, 0, self.p())),
            *final(cs) == old(cs).enforced(self@ is Some ==> ec_double_ok(self@->0, 0, self.p())),
    {
        self.tangent_double(cs)
    }

    /// `2 * self + other` with one shared slope, for points that the caller
    /// guarantees independent.
    pub fn double_and_add_unchecked(&self, cs: &mut ConstraintSystem, other: &Self) -> (r: Self)
        requires
            self.same_curve(other),
        ensures
            r.wf(),
            r.circuit_params == self.circuit_params,
            r@ == lift2(self@, other@, ec_double_and_add(self@->0, other@->0, self.p())),
            *final(cs) == old(cs).enforced(
                when2(self@, other@, ec_double_and_add_ok(self@->0, other@->0, self.p())),
            ),
    {
        let (x, y) = double_and_add_coords(cs, &self.x, &self.y, &other.x, &other.y);
        AffinePoint {
            x,
            y,
            is_in_subgroup: self.is_in_subgroup && other.is_in_subgroup,
            circuit_params: self.circuit_params,
        }
    }

    /// `2 * self + other`, enforcing that the abscissae differ.
    pub fn double_and_add(&self, cs: &mut ConstraintSystem, other: &Self) -> (r: Self)
        requires
            self.same_curve(other),
        ensures
            r.wf(),
            r.circuit_params == self.circuit_params,
            r@ == lift2(self@, other@, ec_double_and_add(self@->0, other@->0, self.p())),
            *final(cs) == old(cs).enforced(
                when2(
                    self@,
                    other@,
                    abscissa(self@) != abscissa(other@) && ec_double_and_add_ok(
                        self@->0,
                        other@->0,
                        self.p(),
                    ),
                ),
            ),
    {
        FieldElement::enforce_not_equal(cs, &self.x, &other.x);
        self.double_and_add_unchecked(cs, other)
    }
}

/// A point read back from a gadget is the concrete point it was built from:
/// `constant` and `allocate` give a gadget whose view is the point's view, and
/// `get_value` gives back a concrete point of the gadget's view.
pub proof fn lemma_value_round_trip(g: AffinePoint, v: CurvePoint, back: Option<CurvePoint>)
    requires
        v@ is Some,
        g@ == v@,
        back is Some == g@ is Some,
        back matches Some(b) ==> b@ == g@,
    ensures
        back == Some(v),
{
}

/// The limbs of an optional coordinate.
fn decompose(v: Option<u64>) -> (r: Option<Vec<u64>>)
    ensures
        r is Some == v is Some,
        r matches Some(l) ==> l@ == limbs_of(v->0 as int),
{
    match v {
        Some(x) => Some(coordinate_limbs(x)),
        None => None,
    }
}

} // verus!
