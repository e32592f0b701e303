//! The quadratic extension `F[u] / (u^2 - nr)` of a prime field, and points
//! of a curve whose coordinates lie in it.
use crate::curve::{AffinePoint, CurveParams};
use crate::field::{fadd, finv, fmul, fneg, fsub, inv_mod, modulus_ok};
use crate::gadget::{val, Boolean, ConstraintSystem, FieldElement};
use vstd::prelude::*;

verus! {

pub type Fp2Value = (int, int);

pub open spec fn fp2_add(a: Fp2Value, b: Fp2Value, p: int) -> Fp2Value {
    (fadd(a.0, b.0, p), fadd(a.1, b.1, p))
}

pub open spec fn fp2_sub(a: Fp2Value, b: Fp2Value, p: int) -> Fp2Value {
    (fsub(a.0, b.0, p), fsub(a.1, b.1, p))
}

pub open spec fn fp2_neg(a: Fp2Value, p: int) -> Fp2Value {
    (fneg(a.0, p), fneg(a.1, p))
}

/// `(a0 + a1 u)(b0 + b1 u) = (a0 b0 + nr a1 b1) + (a0 b1 + a1 b0) u`.
pub open spec fn fp2_mul(a: Fp2Value, b: Fp2Value, nr: int, p: int) -> Fp2Value {
    (
        fadd(fmul(a.0, b.0, p), fmul(nr, fmul(a.1, b.1, p), p), p),
        fadd(fmul(a.0, b.1, p), fmul(a.1, b.0, p), p),
    )
}

/// `(d0 - d1 u) / (d0^2 - nr d1^2)`.
pub open spec fn fp2_inv(d: Fp2Value, nr: int, p: int) -> Fp2Value {
    let n = fsub(fmul(d.0, d.0, p), fmul(nr, fmul(d.1, d.1, p), p), p);
    let ni = finv(n, p);
    (fmul(d.0, ni, p), fmul(fneg(d.1, p), ni, p))
}

pub open spec fn fp2_div(a: Fp2Value, d: Fp2Value, nr: int, p: int) -> Fp2Value {
    fp2_mul(a, fp2_inv(d, nr, p), nr, p)
}

/// Whether `w * d == a` holds for `w = a / d`.
pub open spec fn fp2_division_ok(a: Fp2Value, d: Fp2Value, nr: int, p: int) -> bool {
    fp2_mul(fp2_div(a, d, nr, p), d, nr, p) == a
}

/// An element `c0 + c1 u` of the extension, whose value may be absent.
#[derive(Clone, Copy, Debug)]
pub struct Fp2 {
    pub c0: FieldElement,
    pub c1: FieldElement,
    /// The square of `u`.
    pub non_residue: u64,
}

impl Fp2 {
    pub open spec fn wf(&self) -> bool {
        &&& self.c0.compatible(&self.c1)
        &&& self.non_residue < self.c0.modulus
        &&& self.c0.value is Some == self.c1.value is Some
    }

    pub open spec fn compatible(&self, o: &Self) -> bool {
        self.wf() && o.wf() && self.c0.modulus == o.c0.modulus && self.non_residue == o.non_residue
    }

    pub open spec fn view(&self) -> Option<Fp2Value> {
        if self.c0.value is Some && self.c1.value is Some {
            Some((val(self.c0.value), val(self.c1.value)))
        } else {
            None
        }
    }

    pub open spec fn p(&self) -> int {
        self.c0.modulus as int
    }

    pub open spec fn nr(&self) -> int {
        self.non_residue as int
    }

    pub open spec fn same_shape(&self, r: &Self) -> bool {
        r.wf() && r.c0.modulus == self.c0.modulus && r.non_residue == self.non_residue
    }

    pub fn constant(c0: u64, c1: u64, modulus: u64, non_residue: u64) -> (r: Self)
        requires
            modulus_ok(modulus as int),
            c0 < modulus,
            c1 < modulus,
            non_residue < modulus,
        ensures
            r.wf(),
            r.c0.modulus == modulus,
            r.non_residue == non_residue,
            r@ == Some((c0 as int, c1 as int)),
    {
        Fp2 {
            c0: FieldElement::constant(c0, modulus),
            c1: FieldElement::constant(c1, modulus),
            non_residue,
        }
    }

    /// Allocates an element; its value is present where both parts are.
    pub fn allocate(c0: Option<u64>, c1: Option<u64>, modulus: u64, non_residue: u64) -> (r: Self)
        requires
            modulus_ok(modulus as int),
            c0 matches Some(v) ==> v < modulus,
            c1 matches Some(v) ==> v < modulus,
            non_residue < modulus,
        ensures
            r.wf(),
            r.c0.modulus == modulus,
            r.non_residue == non_residue,
            r@ == match (c0, c1) {
                (Some(a), Some(b)) => Some((a as int, b as int)),
                _ => None,
            },
    {
        let (v0, v1) = match (c0, c1) {
            (Some(a), Some(b)) => (Some(a), Some(b)),
            _ => (None, None),
        };
        Fp2 {
            c0: FieldElement::allocate(v0, modulus),
            c1: FieldElement::allocate(v1, modulus),
            non_residue,
        }
    }

    /// The embedding `c0 + 0 u` of a base-field element.
    pub fn from_base_field(e: FieldElement, non_residue: u64) -> (r: Self)
        requires
            e.wf(),
            non_residue < e.modulus,
        ensures
            r.wf(),
            r.c0 == e,
            r.c0.modulus == e.modulus,
            r.non_residue == non_residue,
            r@ == match e.value {
                Some(v) => Some((v as int, 0int)),
                None => None,
            },
    {
        let c1 = match e.value {
            Some(_) => FieldElement::constant(0, e.modulus),
            None => FieldElement::allocate(None, e.modulus),
        };
        Fp2 { c0: e, c1, non_residue }
    }

    pub fn get_value(&self) -> (r: Option<(u64, u64)>)
        requires
            self.wf(),
        ensures
            r is Some == self@ is Some,
            r matches Some(v) ==> self@ == Some((v.0 as int, v.1 as int)),
    {
        match (self.c0.value, self.c1.value) {
            (Some(a), Some(b)) => Some((a, b)),
            _ => None,
        }
    }

    pub fn add(&self, o: &Self) -> (r: Self)
        requires
            self.compatible(o),
        ensures
            self.same_shape(&r),
            r@ == if self@ is Some && o@ is Some {
                Some(fp2_add(self@->0, o@->0, self.p()))
            } else {
                None
            },
    {
        Fp2 { c0: self.c0.add(&o.c0), c1: self.c1.add(&o.c1), non_residue: self.non_residue }
    }

    pub fn sub(&self, o: &Self) -> (r: Self)
        requires
            self.compatible(o),
        ensures
            self.same_shape(&r),
            r@ == if self@ is Some && o@ is Some {
                Some(fp2_sub(self@->0, o@->0, self.p()))
            } else {
                None
            },
    {
        Fp2 { c0: self.c0.sub(&o.c0), c1: self.c1.sub(&o.c1), non_residue: self.non_residue }
    }

    pub fn double(&self) -> (r: Self)
        requires
            self.wf(),
        ensures
            self.same_shape(&r),
            r@ == if self@ is Some {
                Some(fp2_add(self@->0, self@->0, self.p()))
            } else {
                None
            },
    {
        self.add(self)
    }

    pub fn negate(&self) -> (r: Self)
        requires
            self.wf(),
        ensures
            self.same_shape(&r),
            r@ == if self@ is Some {
                Some(fp2_neg(self@->0, self.p()))
            } else {
                None
            },
    {
        Fp2 { c0: self.c0.negate(), c1: self.c1.negate(), non_residue: self.non_residue }
    }

    pub fn mul(&self, o: &Self) -> (r: Self)
        requires
            self.compatible(o),
        ensures
            self.same_shape(&r),
            r@ == if self@ is Some && o@ is Some {
                Some(fp2_mul(self@->0, o@->0, self.nr(), self.p()))
            } else {
                None
            },
    {
        let nr = FieldElement::constant(self.non_residue, self.c0.modulus);
        let c0 = self.c0.mul(&o.c0).add(&nr.mul(&self.c1.mul(&o.c1)));
        let c1 = self.c0.mul(&o.c1).add(&self.c1.mul(&o.c0));
        Fp2 { c0, c1, non_residue: self.non_residue }
    }

    pub fn square(&self) -> (r: Self)
        requires
            self.wf(),
        ensures
            self.same_shape(&r),
            r@ == if self@ is Some {
                Some(fp2_mul(self@->0, self@->0, self.nr(), self.p()))
            } else {
                None
            },
    {
        self.mul(self)
    }

    /// `num / den`, allocated as a witness `w` with `w * den == num` enforced.
    pub fn div(cs: &mut ConstraintSystem, num: &Self, den: &Self) -> (r: Self)
        requires
            num.compatible(den),
        ensures
            num.same_shape(&r),
            r@ == if num@ is Some && den@ is Some {
                Some(fp2_div(num@->0, den@->0, num.nr(), num.p()))
            } else {
                None
            },
            *final(cs) == old(cs).enforced(
                num@ is Some && den@ is Some ==> fp2_division_ok(num@->0, den@->0, num.nr(), num.p()),
            ),
    {
        let p = num.c0.modulus;
        let nr = FieldElement::constant(num.non_residue, p);
        let norm = den.c0.square().sub(&nr.mul(&den.c1.square()));
        let norm_inv = match norm.value {
            Some(n) => match inv_mod(n, p) {
                Some(v) => Some(v),
                None => Some(0),
            },
            None => None,
        };
        let ni = FieldElement::allocate(norm_inv, p);
        let inv = Fp2 { c0: den.c0.mul(&ni), c1: den.c1.negate().mul(&ni), non_residue: num.non_residue };
        let w = num.mul(&inv);
        let w = Fp2 {
            c0: FieldElement::allocate(w.c0.value, p),
            c1: FieldElement::allocate(w.c1.value, p),
            non_residue: num.non_residue,
        };
        let check = w.mul(den);
        FieldElement::enforce_equal(cs, &check.c0, &num.c0);
        FieldElement::enforce_equal(cs, &check.c1, &num.c1);
        w
    }

    pub fn conditionally_select(flag: &Boolean, first: &Self, second: &Self) -> (r: Self)
        requires
            first.compatible(second),
        ensures
            first.same_shape(&r),
            r@ == match flag.value {
                Some(true) => first@,
                Some(false) => second@,
                None => None,
            },
    {
        Fp2 {
            c0: FieldElement::conditionally_select(flag, &first.c0, &second.c0),
            c1: FieldElement::conditionally_select(flag, &first.c1, &second.c1),
            non_residue: first.non_residue,
        }
    }

    pub fn conditionally_negate(&self, flag: &Boolean) -> (r: Self)
        requires
            self.wf(),
        ensures
            self.same_shape(&r),
            r@ == match flag.value {
                Some(true) => if self@ is Some {
                    Some(fp2_neg(self@->0, self.p()))
                } else {
                    None
                },
                Some(false) => self@,
                None => None,
            },
    {
        let negated = self.negate();
        Self::conditionally_select(flag, &negated, self)
    }

    pub fn enforce_equal(cs: &mut ConstraintSystem, a: &Self, b: &Self)
        requires
            a.compatible(b),
        ensures
            *final(cs) == old(cs).enforced(a@ is Some && b@ is Some ==> a@ == b@),
    {
        FieldElement::enforce_equal(cs, &a.c0, &b.c0);
        FieldElement::enforce_equal(cs, &a.c1, &b.c1);
    }
}

/// A point with coordinates in the extension: `(x, y)`.
pub type ExtPoint = (Fp2Value, Fp2Value);

/// The reflected third point on the line of slope `l` through `p1` and a point of abscissa `x2`.
pub open spec fn ext_chord(p1: ExtPoint, x2: Fp2Value, l: Fp2Value, nr: int, p: int) -> ExtPoint {
    let x3 = fp2_sub(fp2_sub(fp2_mul(l, l, nr, p), x2, p), p1.0, p);
    (x3, fp2_sub(fp2_mul(l, fp2_sub(p1.0, x3, p), nr, p), p1.1, p))
}

pub open spec fn ext_slope(p1: ExtPoint, p2: ExtPoint, nr: int, p: int) -> Fp2Value {
    fp2_div(fp2_sub(p2.1, p1.1, p), fp2_sub(p2.0, p1.0, p), nr, p)
}

/// `p1 + p2` for points of distinct abscissae.
pub open spec fn ext_add(p1: ExtPoint, p2: ExtPoint, nr: int, p: int) -> ExtPoint {
    ext_chord(p1, p2.0, ext_slope(p1, p2, nr, p), nr, p)
}

pub open spec fn ext_add_ok(p1: ExtPoint, p2: ExtPoint, nr: int, p: int) -> bool {
    fp2_division_ok(fp2_sub(p2.1, p1.1, p), fp2_sub(p2.0, p1.0, p), nr, p)
}

/// `p1 - p2` for points of distinct abscissae, as `ec_sub` over the base field.
pub open spec fn ext_sub(p1: ExtPoint, p2: ExtPoint, nr: int, p: int) -> ExtPoint {
    let l = fp2_div(fp2_add(p2.1, p1.1, p), fp2_sub(p2.0, p1.0, p), nr, p);
    let x3 = fp2_sub(fp2_sub(fp2_mul(l, l, nr, p), p1.0, p), p2.0, p);
    (x3, fp2_sub(fp2_mul(l, fp2_sub(x3, p1.0, p), nr, p), p1.1, p))
}

pub open spec fn ext_sub_ok(p1: ExtPoint, p2: ExtPoint, nr: int, p: int) -> bool {
    fp2_division_ok(fp2_add(p2.1, p1.1, p), fp2_sub(p2.0, p1.0, p), nr, p)
}

/// `2 * p1` on a curve whose coefficient `a` is zero: slope `3 x^2 / (2 y)`.
pub open spec fn ext_double(p1: ExtPoint, nr: int, p: int) -> ExtPoint {
    let sq = fp2_mul(p1.0, p1.0, nr, p);
    let l = fp2_div(fp2_add(fp2_add(sq, sq, p), sq, p), fp2_add(p1.1, p1.1, p), nr, p);
    ext_chord(p1, p1.0, l, nr, p)
}

pub open spec fn ext_double_ok(p1: ExtPoint, nr: int, p: int) -> bool {
    let sq = fp2_mul(p1.0, p1.0, nr, p);
    fp2_division_ok(fp2_add(fp2_add(sq, sq, p), sq, p), fp2_add(p1.1, p1.1, p), nr, p)
}

/// `2 * p1 + p2` as `p1 + (p1 + p2)` with one shared slope, as `ec_double_and_add`.
pub open spec fn ext_double_and_add(p1: ExtPoint, p2: ExtPoint, nr: int, p: int) -> ExtPoint {
    let l = ext_slope(p1, p2, nr, p);
    let x3 = fp2_sub(fp2_sub(fp2_mul(l, l, nr, p), p2.0, p), p1.0, p);
    let t = fp2_add(l, fp2_div(fp2_add(p1.1, p1.1, p), fp2_sub(x3, p1.0, p), nr, p), p);
    let x4 = fp2_sub(fp2_sub(fp2_mul(t, t, nr, p), p1.0, p), x3, p);
    (x4, fp2_sub(fp2_mul(t, fp2_sub(x4, p1.0, p), nr, p), p1.1, p))
}

pub open spec fn ext_double_and_add_ok(p1: ExtPoint, p2: ExtPoint, nr: int, p: int) -> bool {
    let l = ext_slope(p1, p2, nr, p);
    let x3 = fp2_sub(fp2_sub(fp2_mul(l, l, nr, p), p2.0, p), p1.0, p);
    ext_add_ok(p1, p2, nr, p) && fp2_division_ok(fp2_add(p1.1, p1.1, p), fp2_sub(x3, p1.0, p), nr, p)
}

/// The right-hand side `x^3 + a x + b`, the linear term left out where `a` is zero.
pub open spec fn ext_rhs(x: Fp2Value, a: int, b: int, nr: int, p: int) -> Fp2Value {
    let cube = fp2_mul(fp2_mul(x, x, nr, p), x, nr, p);
    if a == 0 {
        fp2_add(cube, (b, 0), p)
    } else {
        fp2_add(fp2_add(fp2_mul(x, (a, 0), nr, p), cube, p), (b, 0), p)
    }
}

pub open spec fn ext_on_curve(pt: ExtPoint, a: int, b: int, nr: int, p: int) -> bool {
    fp2_mul(pt.1, pt.1, nr, p) == ext_rhs(pt.0, a, b, nr, p)
}

pub open spec fn ext_lift2(q1: Option<ExtPoint>, q2: Option<ExtPoint>, r: ExtPoint) -> Option<ExtPoint> {
    if q1 is Some && q2 is Some {
        Some(r)
    } else {
        None
    }
}

/// A point whose coordinates lie in the extension, never the point at infinity.
#[derive(Clone, Copy, Debug)]
pub struct AffinePointExt {
    pub x: Fp2,
    pub y: Fp2,
    pub circuit_params: CurveParams,
}

impl AffinePointExt {
    pub open spec fn wf(&self) -> bool {
        &&& self.circuit_params.wf()
        &&& self.x.compatible(&self.y)
        &&& self.x.c0.modulus == self.circuit_params.modulus
        &&& self.x@ is Some == self.y@ is Some
    }

    pub open spec fn view(&self) -> Option<ExtPoint> {
        if self.x@ is Some && self.y@ is Some {
            Some((self.x@->0, self.y@->0))
        } else {
            None
        }
    }

    pub open spec fn p(&self) -> int {
        self.circuit_params.p()
    }

    pub open spec fn nr(&self) -> int {
        self.x.nr()
    }

    pub open spec fn same_curve(&self, o: &Self) -> bool {
        self.wf() && o.wf() && self.circuit_params == o.circuit_params && self.x.non_residue
            == o.x.non_residue
    }

    pub open spec fn shaped_as(&self, r: Self) -> bool {
        r.wf() && r.circuit_params == self.circuit_params && r.x.non_residue == self.x.non_residue
    }

    /// The embedding of a base-field point: each coordinate becomes `(v, 0)`.
    pub fn from_affine(item: &AffinePoint, non_residue: u64) -> (r: Self)
        requires
            item.wf(),
            non_residue < item.circuit_params.modulus,
        ensures
            r.wf(),
            r.circuit_params == item.circuit_params,
            r.x.non_residue == non_residue,
            r@ == match item@ {
                Some(pt) => Some(((pt.0, 0int), (pt.1, 0int))),
                None => None,
            },
    {
        AffinePointExt {
            x: Fp2::from_base_field(item.get_x(), non_residue),
            y: Fp2::from_base_field(item.get_y(), non_residue),
            circuit_params: item.circuit_params,
        }
    }

    pub fn get_x(&self) -> (r: Fp2)
        ensures
            r == self.x,
    {
        self.x
    }

    pub fn get_y(&self) -> (r: Fp2)
        ensures
            r == self.y,
    {
        self.y
    }

    /// The coordinates `(x_c0, x_c1, y_c0, y_c1)`, where present.
    pub fn get_value(&self) -> (r: Option<(u64, u64, u64, u64)>)
        requires
            self.wf(),
        ensures
            r is Some == self@ is Some,
            r matches Some(v) ==> self@ == Some(((v.0 as int, v.1 as int), (v.2 as int, v.3 as int))),
    {
        match (self.x.get_value(), self.y.get_value()) {
            (Some((x_c0, x_c1)), Some((y_c0, y_c1))) => Some((x_c0, x_c1, y_c0, y_c1)),
            _ => None,
        }
    }

    /// The constant point with all coordinates zero.
    pub fn uninitialized(params: &CurveParams, non_residue: u64) -> (r: Self)
        requires
            params.wf(),
            non_residue < params.modulus,
        ensures
            r.wf(),
            r.circuit_params == *params,
            r.x.non_residue == non_residue,
            r@ == Some(((0int, 0int), (0int, 0int))),
    {
        Self::constant(0, 0, 0, 0, params, non_residue)
    }

    /// Allocates a point and enforces that it is on the curve.
    pub fn allocate(
        cs: &mut ConstraintSystem,
        x_c0_wit: Option<u64>,
        x_c1_wit: Option<u64>,
        y_c0_wit: Option<u64>,
        y_c1_wit: Option<u64>,
        params: &CurveParams,
        non_residue: u64,
    ) -> (r: Result<Self, crate::gadget::SynthesisError>)
        requires
            params.wf(),
            non_residue < params.modulus,
            x_c0_wit matches Some(v) ==> v < params.modulus,
            x_c1_wit matches Some(v) ==> v < params.modulus,
            y_c0_wit matches Some(v) ==> v < params.modulus,
            y_c1_wit matches Some(v) ==> v < params.modulus,
        ensures
            r matches Ok(pt) && pt.wf() && pt.circuit_params == *params && pt.x.non_residue
                == non_residue && pt@ == match (x_c0_wit, x_c1_wit, y_c0_wit, y_c1_wit) {
                (Some(a), Some(b), Some(c), Some(d)) => Some(
                    ((a as int, b as int), (c as int, d as int)),
                ),
                _ => None,
            } && *final(cs) == old(cs).enforced(pt.on_curve_holds()),
    {
        let known = x_c0_wit.is_some() && x_c1_wit.is_some() && y_c0_wit.is_some() && y_c1_wit.is_some();
        let (a, b, c, d) = if known {
            (x_c0_wit, x_c1_wit, y_c0_wit, y_c1_wit)
        } else {
            (None, None, None, None)
        };
        let x = Fp2::allocate(a, b, params.modulus, non_residue);
        let y = Fp2::allocate(c, d, params.modulus, non_residue);
        let point = AffinePointExt { x, y, circuit_params: *params };
        point.enforce_if_on_curve(cs);
        Ok(point)
    }

    pub fn constant(x0: u64, x1: u64, y0: u64, y1: u64, params: &CurveParams, non_residue: u64) -> (r: Self)
        requires
            params.wf(),
            non_residue < params.modulus,
            x0 < params.modulus,
            x1 < params.modulus,
            y0 < params.modulus,
            y1 < params.modulus,
        ensures
            r.wf(),
            r.circuit_params == *params,
            r.x.non_residue == non_residue,
            r@ == Some(((x0 as int, x1 as int), (y0 as int, y1 as int))),
    {
        let x = Fp2::constant(x0, x1, params.modulus, non_residue);
        let y = Fp2::constant(y0, y1, params.modulus, non_residue);
        AffinePointExt { x, y, circuit_params: *params }
    }

    pub open spec fn on_curve_holds(&self) -> bool {
        self@ matches Some(pt) ==> ext_on_curve(
            pt,
            self.circuit_params.a as int,
            self.circuit_params.b as int,
            self.nr(),
            self.p(),
        )
    }

    /// Enforces `y^2 == x^3 + a x + b` in the extension.
    pub fn enforce_if_on_curve(&self, cs: &mut ConstraintSystem)
        requires
            self.wf(),
        ensures
            *final(cs) == old(cs).enforced(self.on_curve_holds()),
    {
        let params = &self.circuit_params;
        let nr = self.x.non_residue;
        let a = Fp2::constant(params.a, 0, params.modulus, nr);
        let b = Fp2::constant(params.b, 0, params.modulus, nr);
        let lhs = self.y.square();
        let x_squared = self.x.square();
        let x_cubed = x_squared.mul(&self.x);
        let rhs = if params.a == 0 {
            x_cubed.add(&b)
        } else {
            self.x.mul(&a).add(&x_cubed).add(&b)
        };
        Fp2::enforce_equal(cs, &lhs, &rhs);
    }

    pub fn enforce_equal(cs: &mut ConstraintSystem, left: &Self, right: &Self) -> (r: Result<(), crate::gadget::SynthesisError>)
        requires
            left.same_curve(right),
        ensures
            r is Ok,
            *final(cs) == old(cs).enforced(left@ is Some && right@ is Some ==> left@ == right@),
    {
        Fp2::enforce_equal(cs, &left.x, &right.x);
        Fp2::enforce_equal(cs, &left.y, &right.y);
        Ok(())
    }

    /// `self + other` for points of distinct abscissae, which the caller guarantees.
    pub fn add_unequal_unchecked(&self, cs: &mut ConstraintSystem, other: &Self) -> (r: Result<Self, crate::gadget::SynthesisError>)
        requires
            self.same_curve(other),
        ensures
            r matches Ok(pt) && self.shaped_as(pt) && pt@ == ext_lift2(
                self@,
                other@,
                ext_add(self@->0, other@->0, self.nr(), self.p()),
            ),
            *final(cs) == old(cs).enforced(
                self@ is Some && other@ is Some ==> ext_add_ok(self@->0, other@->0, self.nr(), self.p()),
            ),
    {
        let other_x_minus_this_x = other.x.sub(&self.x);
        let dy = other.y.sub(&self.y);
        let lambda = Fp2::div(cs, &dy, &other_x_minus_this_x);
        let new_x = lambda.square().sub(&other.x).sub(&self.x);
        let this_x_minus_new_x = self.x.sub(&new_x);
        let new_y = lambda.mul(&this_x_minus_new_x).sub(&self.y);
        Ok(AffinePointExt { x: new_x, y: new_y, circuit_params: self.circuit_params })
    }

    /// `2 * self + other` with one shared slope, for points that the caller
    /// guarantees independent.
    pub fn double_and_add_unequal_unchecked(&self, cs: &mut ConstraintSystem, other: &Self) -> (r: Result<Self, crate::gadget::SynthesisError>)
        requires
            self.same_curve(other),
        ensures
            r matches Ok(pt) && self.shaped_as(pt) && pt@ == ext_lift2(
                self@,
                other@,
                ext_double_and_add(self@->0, other@->0, self.nr(), self.p()),
            ),
            *final(cs) == old(cs).enforced(
                self@ is Some && other@ is Some ==> ext_double_and_add_ok(
                    self@->0,
                    other@->0,
                    self.nr(),
                    self.p(),
                ),
            ),
    {
        let other_x_minus_this_x = other.x.sub(&self.x);
        let dy = other.y.sub(&self.y);
        let lambda = Fp2::div(cs, &dy, &other_x_minus_this_x);
        let x3 = lambda.square().sub(&other.x).sub(&self.x);
        let x3_minus_this_x = x3.sub(&self.x);
        let two_y = self.y.double();
        let t0 = Fp2::div(cs, &two_y, &x3_minus_this_x);
        let t1 = lambda.add(&t0);
        let new_x = t1.square().sub(&self.x).sub(&x3);
        let new_x_minus_x = new_x.sub(&self.x);
        let new_y = t1.mul(&new_x_minus_x).sub(&self.y);
        Ok(AffinePointExt { x: new_x, y: new_y, circuit_params: self.circuit_params })
    }

    /// `self - other` for points of distinct abscissae, which the caller guarantees.
    pub fn sub_unequal_unchecked(&self, cs: &mut ConstraintSystem, other: &Self) -> (r: Result<Self, crate::gadget::SynthesisError>)
        requires
            self.same_curve(other),
        ensures
            r matches Ok(pt) && self.shaped_as(pt) && pt@ == ext_lift2(
                self@,
                other@,
                ext_sub(self@->0, other@->0, self.nr(), self.p()),
            ),
            *final(cs) == old(cs).enforced(
                self@ is Some && other@ is Some ==> ext_sub_ok(self@->0, other@->0, self.nr(), self.p()),
            ),
    {
        let other_x_minus_this_x = other.x.sub(&self.x);
        let sy = other.y.add(&self.y);
        let lambda = Fp2::div(cs, &sy, &other_x_minus_this_x);
        let new_x = lambda.square().sub(&self.x).sub(&other.x);
        let new_x_minus_this_x = new_x.sub(&self.x);
        let new_y = lambda.mul(&new_x_minus_this_x).sub(&self.y);
        Ok(AffinePointExt { x: new_x, y: new_y, circuit_params: self.circuit_params })
    }

    /// `2 * self` on a curve whose coefficient `a` is zero.
    pub fn double(&self, cs: &mut ConstraintSystem) -> (r: Result<Self, crate::gadget::SynthesisError>)
        requires
            self.wf(),
            self.circuit_params.a == 0,
        ensures
            r matches Ok(pt) && self.shaped_as(pt) && pt@ == match self@ {
                Some(pt) => Some(ext_double(pt, self.nr(), self.p())),
                None => None,
            },
            *final(cs) == old(cs).enforced(
                self@ is Some ==> ext_double_ok(self@->0, self.nr(), self.p()),
            ),
    {
        let x_squared = self.x.square();
        let num = x_squared.add(&x_squared).add(&x_squared);
        let two_y = self.y.double();
        let lambda = Fp2::div(cs, &num, &two_y);
        let new_x = lambda.square().sub(&self.x).sub(&self.x);
        let x_minus_new_x = self.x.sub(&new_x);
        let new_y = lambda.mul(&x_minus_new_x).sub(&self.y);
        Ok(AffinePointExt { x: new_x, y: new_y, circuit_params: self.circuit_params })
    }

    /// `first` where `flag` is set, else `second`.
    pub fn conditionally_select(cs: &mut ConstraintSystem, flag: &Boolean, first: &Self, second: &Self) -> (r: Result<Self, crate::gadget::SynthesisError>)
        requires
            first.same_curve(second),
        ensures
            r matches Ok(pt) && first.shaped_as(pt) && pt@ == match flag.value {
                Some(true) => first@,
                Some(false) => second@,
                None => None,
            },
            *final(cs) == *old(cs),
    {
        let x = Fp2::conditionally_select(flag, &first.x, &second.x);
        let y = Fp2::conditionally_select(flag, &first.y, &second.y);
        Ok(AffinePointExt { x, y, circuit_params: first.circuit_params })
    }

    pub fn negate(&self, cs: &mut ConstraintSystem) -> (r: Result<Self, crate::gadget::SynthesisError>)
        requires
            self.wf(),
        ensures
            r matches Ok(pt) && self.shaped_as(pt) && pt.x == self.x && pt@ == match self@ {
                Some(pt) => Some((pt.0, fp2_neg(pt.1, self.p()))),
                None => None,
            },
            *final(cs) == *old(cs),
    {
        let x = self.x;
        let y = self.y.negate();
        Ok(AffinePointExt { x, y, circuit_params: self.circuit_params })
    }

    pub fn conditionally_negate(&self, cs: &mut ConstraintSystem, flag: &Boolean) -> (r: Result<Self, crate::gadget::SynthesisError>)
        requires
            self.wf(),
        ensures
            r matches Ok(pt) && self.shaped_as(pt) && pt@ == match (flag.value, self@) {
                (Some(true), Some(pt)) => Some((pt.0, fp2_neg(pt.1, self.p()))),
                (Some(false), _) => self@,
                _ => None,
            },
            *final(cs) == *old(cs),
    {
        let x = Fp2::conditionally_select(flag, &self.x, &self.x);
        let y = self.y.conditionally_negate(flag);
        Ok(AffinePointExt { x, y, circuit_params: self.circuit_params })
    }

    /// The embedding of `elem` with the non-residue of `self`.
    pub open spec fn embedded(&self, elem: &AffinePoint) -> Option<ExtPoint> {
        match elem@ {
            Some(pt) => Some(((pt.0, 0int), (pt.1, 0int))),
            None => None,
        }
    }

    /// `self + elem` for a base-field point `elem` of another abscissa.
    pub fn mixed_add_unequal_unchecked(&self, cs: &mut ConstraintSystem, elem: &AffinePoint) -> (r: Result<Self, crate::gadget::SynthesisError>)
        requires
            self.wf(),
            elem.wf(),
            elem.circuit_params == self.circuit_params,
        ensures
            r matches Ok(pt) && self.shaped_as(pt) && pt@ == ext_lift2(
                self@,
                self.embedded(elem),
                ext_add(self@->0, self.embedded(elem)->0, self.nr(), self.p()),
            ),
            *final(cs) == old(cs).enforced(
                self@ is Some && elem@ is Some ==> ext_add_ok(
                    self@->0,
                    self.embedded(elem)->0,
                    self.nr(),
                    self.p(),
                ),
            ),
    {
        let elem_ext = Self::from_affine(elem, self.x.non_residue);
        self.add_unequal_unchecked(cs, &elem_ext)
    }

    /// `self - elem` for a base-field point `elem` of another abscissa.
    pub fn mixed_sub_unequal_unchecked(&self, cs: &mut ConstraintSystem, elem: &AffinePoint) -> (r: Result<Self, crate::gadget::SynthesisError>)
        requires
            self.wf(),
            elem.wf(),
            elem.circuit_params == self.circuit_params,
        ensures
            r matches Ok(pt) && self.shaped_as(pt) && pt@ == ext_lift2(
                self@,
                self.embedded(elem),
                ext_sub(self@->0, self.embedded(elem)->0, self.nr(), self.p()),
            ),
            *final(cs) == old(cs).enforced(
                self@ is Some && elem@ is Some ==> ext_sub_ok(
                    self@->0,
                    self.embedded(elem)->0,
                    self.nr(),
                    self.p(),
                ),
            ),
    {
        let elem_ext = Self::from_affine(elem, self.x.non_residue);
        self.sub_unequal_unchecked(cs, &elem_ext)
    }

    /// `2 * self + elem` for a base-field point `elem` of another abscissa.
    pub fn mixed_double_and_add_unequal_unchecked(&self, cs: &mut ConstraintSystem, elem: &AffinePoint) -> (r: Result<Self, crate::gadget::SynthesisError>)
        requires
            self.wf(),
            elem.wf(),
            elem.circuit_params == self.circuit_params,
        ensures
            r matches Ok(pt) && self.shaped_as(pt) && pt@ == ext_lift2(
                self@,
                self.embedded(elem),
                ext_double_and_add(self@->0, self.embedded(elem)->0, self.nr(), self.p()),
            ),
            *final(cs) == old(cs).enforced(
                self@ is Some && elem@ is Some ==> ext_double_and_add_ok(
                    self@->0,
                    self.embedded(elem)->0,
                    self.nr(),
                    self.p(),
                ),
            ),
    {
        let elem_ext = Self::from_affine(elem, self.x.non_residue);
        self.double_and_add_unequal_unchecked(cs, &elem_ext)
    }
}

} // verus!
