//! The fused doubling and addition as two chord additions.
use crate::curve::{chord_slope, ec_add, ec_double_and_add};
use crate::field::{fadd, fdiv, finv, fmul, fsub, has_inverse, is_inverse};
use crate::group_law::{
    cong, lemma_cong_add, lemma_cong_mod, lemma_cong_mul, lemma_cong_of_mod, lemma_cong_refl,
    lemma_cong_symm, lemma_cong_trans, lemma_mod_of_cong,
};
use vstd::prelude::*;

verus! {

/// Reduced values that are congruent are equal.
proof fn lemma_reduced_eq(u: int, v: int, p: int)
    requires
        p > 0,
        cong(u % p, v % p, p),
    ensures
        u % p == v % p,
{
    lemma_mod_of_cong(u % p, v % p, p);
    vstd::arithmetic::div_mod::lemma_mod_twice(u, p);
    vstd::arithmetic::div_mod::lemma_mod_twice(v, p);
}

/// The fused doubling and addition is two chord additions, `p1 + (p1 + p2)`,
/// where the abscissae of `p1` and `p1 + p2` differ by an invertible amount.
pub proof fn lemma_double_and_add_is_two_additions(p1: (int, int), p2: (int, int), p: int)
    requires
        p > 1,
        has_inverse(fsub(ec_add(p1, p2, p).0, p1.0, p), p),
    ensures
        ec_double_and_add(p1, p2, p) == ec_add(p1, ec_add(p1, p2, p), p),
{
    let (x1, y1) = (p1.0, p1.1);
    let l = chord_slope(p1, p2, p);
    let r = ec_add(p1, p2, p);
    let (x3, y3) = (r.0, r.1);
    let dxr = fsub(x3, x1, p);
    let w = finv(dxr, p);
    assert(is_inverse(w, dxr, p));
    let t = fadd(l, fdiv(fadd(y1, y1, p), dxr, p), p);
    let sl = fdiv(fsub(y3, y1, p), dxr, p);
    // (x3 - x1) * w == 1
    lemma_cong_of_mod(w * dxr, 1, p);
    lemma_cong_mod(x3 - x1, p);
    lemma_cong_refl(w, p);
    lemma_cong_mul(w, w, dxr, x3 - x1, p);
    lemma_cong_symm(w * dxr, w * (x3 - x1), p);
    lemma_cong_trans(w * (x3 - x1), w * dxr, 1, p);
    // y3 - y1 == -(l * (x3 - x1)) - 2 * y1
    lemma_cong_mod(x1 - x3, p);
    lemma_cong_refl(l, p);
    lemma_cong_mul(l, l, fsub(x1, x3, p), x1 - x3, p);
    lemma_cong_mod(l * fsub(x1, x3, p), p);
    lemma_cong_trans(fmul(l, fsub(x1, x3, p), p), l * fsub(x1, x3, p), l * (x1 - x3), p);
    lemma_cong_refl(y1, p);
    lemma_cong_add(fmul(l, fsub(x1, x3, p), p), l * (x1 - x3), y1, y1, p);
    lemma_cong_mod(fmul(l, fsub(x1, x3, p), p) - y1, p);
    lemma_cong_trans(y3, fmul(l, fsub(x1, x3, p), p) - y1, l * (x1 - x3) - y1, p);
    lemma_cong_add(y3, l * (x1 - x3) - y1, y1, y1, p);
    lemma_cong_mod(y3 - y1, p);
    lemma_cong_trans(fsub(y3, y1, p), y3 - y1, l * (x1 - x3) - y1 - y1, p);
    // sl == (-(l * (x3 - x1)) - 2 * y1) * w == -l - 2 * y1 * w
    lemma_cong_mul(fsub(y3, y1, p), l * (x1 - x3) - y1 - y1, w, w, p);
    lemma_cong_mod(fsub(y3, y1, p) * w, p);
    lemma_cong_trans(sl, fsub(y3, y1, p) * w, (l * (x1 - x3) - y1 - y1) * w, p);
    assert((l * (x1 - x3) - y1 - y1) * w == -(l * (w * (x3 - x1))) - (y1 + y1) * w) by (nonlinear_arith);
    lemma_cong_refl(-l, p);
    lemma_cong_mul(-l, -l, w * (x3 - x1), 1, p);
    assert(-l * (w * (x3 - x1)) == -(l * (w * (x3 - x1)))) by (nonlinear_arith);
    lemma_cong_refl((y1 + y1) * w, p);
    lemma_cong_add(-(l * (w * (x3 - x1))), -l * 1, (y1 + y1) * w, (y1 + y1) * w, p);
    lemma_cong_trans(sl, (l * (x1 - x3) - y1 - y1) * w, -l * 1 - (y1 + y1) * w, p);
    // t == l + 2 * y1 * w
    lemma_cong_mod(y1 + y1, p);
    lemma_cong_mul(fadd(y1, y1, p), y1 + y1, w, w, p);
    lemma_cong_mod(fadd(y1, y1, p) * w, p);
    lemma_cong_trans(fdiv(fadd(y1, y1, p), dxr, p), fadd(y1, y1, p) * w, (y1 + y1) * w, p);
    lemma_cong_add(l, l, fdiv(fadd(y1, y1, p), dxr, p), (y1 + y1) * w, p);
    lemma_cong_mod(l + fdiv(fadd(y1, y1, p), dxr, p), p);
    lemma_cong_trans(t, l + fdiv(fadd(y1, y1, p), dxr, p), l + (y1 + y1) * w, p);
    // so sl == -t, and sl * sl == t * t
    assert(-l * 1 - (y1 + y1) * w == -(l + (y1 + y1) * w));
    lemma_cong_refl(0, p);
    lemma_cong_add(0, 0, t, l + (y1 + y1) * w, p);
    assert(0 - t == -t && 0 - (l + (y1 + y1) * w) == -(l + (y1 + y1) * w));
    lemma_cong_symm(-t, -(l + (y1 + y1) * w), p);
    lemma_cong_trans(sl, -(l + (y1 + y1) * w), -t, p);
    lemma_cong_mul(sl, -t, sl, -t, p);
    assert((-t) * (-t) == t * t) by (nonlinear_arith);
    // abscissae
    let x4 = ec_double_and_add(p1, p2, p).0;
    let xr = ec_add(p1, r, p).0;
    lemma_cong_mod(t * t, p);
    lemma_cong_mod(sl * sl, p);
    lemma_cong_trans(fmul(sl, sl, p), sl * sl, t * t, p);
    lemma_cong_symm(fmul(t, t, p), t * t, p);
    lemma_cong_trans(fmul(sl, sl, p), t * t, fmul(t, t, p), p);
    lemma_cong_refl(x1, p);
    lemma_cong_refl(x3, p);
    lemma_cong_mod(fmul(t, t, p) - x1, p);
    lemma_cong_add(fsub(fmul(t, t, p), x1, p), fmul(t, t, p) - x1, x3, x3, p);
    lemma_cong_mod(fsub(fmul(t, t, p), x1, p) - x3, p);
    lemma_cong_trans(x4, fsub(fmul(t, t, p), x1, p) - x3, fmul(t, t, p) - x1 - x3, p);
    lemma_cong_mod(fmul(sl, sl, p) - x3, p);
    lemma_cong_add(fsub(fmul(sl, sl, p), x3, p), fmul(sl, sl, p) - x3, x1, x1, p);
    lemma_cong_mod(fsub(fmul(sl, sl, p), x3, p) - x1, p);
    lemma_cong_trans(xr, fsub(fmul(sl, sl, p), x3, p) - x1, fmul(sl, sl, p) - x3 - x1, p);
    lemma_cong_add(fmul(sl, sl, p), fmul(t, t, p), x3, x3, p);
    lemma_cong_add(fmul(sl, sl, p) - x3, fmul(t, t, p) - x3, x1, x1, p);
    assert(fmul(t, t, p) - x3 - x1 == fmul(t, t, p) - x1 - x3);
    lemma_cong_trans(xr, fmul(sl, sl, p) - x3 - x1, fmul(t, t, p) - x1 - x3, p);
    lemma_cong_symm(x4, fmul(t, t, p) - x1 - x3, p);
    lemma_cong_trans(xr, fmul(t, t, p) - x1 - x3, x4, p);
    lemma_reduced_eq(fsub(fmul(sl, sl, p), x3, p) - x1, fsub(fmul(t, t, p), x1, p) - x3, p);
    assert(xr == x4);
    // ordinates
    let y4 = ec_double_and_add(p1, p2, p).1;
    let yr = ec_add(p1, r, p).1;
    lemma_cong_mod(x4 - x1, p);
    lemma_cong_mod(x1 - x4, p);
    lemma_cong_refl(t, p);
    lemma_cong_mul(t, t, fsub(x4, x1, p), x4 - x1, p);
    lemma_cong_mul(sl, -t, fsub(x1, x4, p), x1 - x4, p);
    assert((-t) * (x1 - x4) == t * (x4 - x1)) by (nonlinear_arith);
    lemma_cong_mod(t * fsub(x4, x1, p), p);
    lemma_cong_mod(sl * fsub(x1, x4, p), p);
    lemma_cong_trans(fmul(t, fsub(x4, x1, p), p), t * fsub(x4, x1, p), t * (x4 - x1), p);
    lemma_cong_trans(fmul(sl, fsub(x1, x4, p), p), sl * fsub(x1, x4, p), t * (x4 - x1), p);
    lemma_cong_symm(fmul(t, fsub(x4, x1, p), p), t * (x4 - x1), p);
    lemma_cong_trans(fmul(sl, fsub(x1, x4, p), p), t * (x4 - x1), fmul(t, fsub(x4, x1, p), p), p);
    lemma_cong_add(fmul(sl, fsub(x1, x4, p), p), fmul(t, fsub(x4, x1, p), p), y1, y1, p);
    lemma_cong_mod(fmul(sl, fsub(x1, x4, p), p) - y1, p);
    lemma_cong_mod(fmul(t, fsub(x4, x1, p), p) - y1, p);
    lemma_cong_trans(yr, fmul(sl, fsub(x1, x4, p), p) - y1, fmul(t, fsub(x4, x1, p), p) - y1, p);
    lemma_cong_symm(y4, fmul(t, fsub(x4, x1, p), p) - y1, p);
    lemma_cong_trans(yr, fmul(t, fsub(x4, x1, p), p) - y1, y4, p);
    lemma_reduced_eq(fmul(sl, fsub(x1, x4, p), p) - y1, fmul(t, fsub(x4, x1, p), p) - y1, p);
}


} // verus!
