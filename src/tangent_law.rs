//! The tangent at a point of the curve meets it in a point of the curve.
use crate::curve::{ec_double, on_curve};
use crate::field::{fadd, finv, fmul, fsub, is_inverse, is_prime, lemma_prime_has_inverse};
use crate::group_law::{
    cong, lemma_chord_remainder, lemma_cong_add, lemma_cong_mod, lemma_cong_mul, lemma_cong_of_mod,
    lemma_cong_refl, lemma_cong_symm, lemma_cong_trans, lemma_mod_of_cong,
};
use vstd::prelude::*;

verus! {

proof fn lemma_cong_fadd(u: int, v: int, uu: int, vv: int, p: int)
    requires
        p > 0,
        cong(u, uu, p),
        cong(v, vv, p),
    ensures
        cong(fadd(u, v, p), uu + vv, p),
{
    lemma_cong_add(u, uu, v, vv, p);
    lemma_cong_mod(u + v, p);
    lemma_cong_trans(fadd(u, v, p), u + v, uu + vv, p);
}

proof fn lemma_cong_fsub(u: int, v: int, uu: int, vv: int, p: int)
    requires
        p > 0,
        cong(u, uu, p),
        cong(v, vv, p),
    ensures
        cong(fsub(u, v, p), uu - vv, p),
{
    lemma_cong_add(u, uu, v, vv, p);
    lemma_cong_mod(u - v, p);
    lemma_cong_trans(fsub(u, v, p), u - v, uu - vv, p);
}

proof fn lemma_cong_fmul(u: int, v: int, uu: int, vv: int, p: int)
    requires
        p > 0,
        cong(u, uu, p),
        cong(v, vv, p),
    ensures
        cong(fmul(u, v, p), uu * vv, p),
{
    lemma_cong_mul(u, uu, v, vv, p);
    lemma_cong_mod(u * v, p);
    lemma_cong_trans(fmul(u, v, p), u * v, uu * vv, p);
}

/// Over a prime field, twice a point of the curve whose ordinate is not
/// annihilated by two lies on the curve.
pub proof fn lemma_double_on_curve(p1: (int, int), a: int, b: int, p: int)
    requires
        is_prime(p),
        on_curve(p1, a, b, p),
        fadd(p1.1, p1.1, p) != 0,
    ensures
        on_curve(ec_double(p1, a, p), a, b, p),
{
    let (x1, y1) = (p1.0, p1.1);
    let dy2 = fadd(y1, y1, p);
    lemma_prime_has_inverse(dy2, p);
    let w = finv(dy2, p);
    assert(is_inverse(w, dy2, p));
    let sq = fmul(x1, x1, p);
    let num = fadd(fadd(fadd(sq, sq, p), sq, p), a, p);
    let l = fmul(num, w, p);
    let g = x1 * x1 + x1 * x1 + x1 * x1 + a;
    // the numerator is 3 x1^2 + a, the denominator 2 y1
    lemma_cong_refl(x1, p);
    lemma_cong_refl(y1, p);
    lemma_cong_refl(a, p);
    lemma_cong_refl(w, p);
    lemma_cong_fmul(x1, x1, x1, x1, p);
    lemma_cong_fadd(sq, sq, x1 * x1, x1 * x1, p);
    lemma_cong_fadd(fadd(sq, sq, p), sq, x1 * x1 + x1 * x1, x1 * x1, p);
    lemma_cong_fadd(fadd(fadd(sq, sq, p), sq, p), a, x1 * x1 + x1 * x1 + x1 * x1, a, p);
    lemma_cong_fadd(y1, y1, y1, y1, p);
    // l * 2 y1 == 3 x1^2 + a
    lemma_cong_mod(num * w, p);
    lemma_cong_symm(dy2, y1 + y1, p);
    lemma_cong_mul(l, num * w, y1 + y1, dy2, p);
    assert(num * w * dy2 == num * (w * dy2)) by (nonlinear_arith);
    lemma_cong_of_mod(w * dy2, 1, p);
    lemma_cong_refl(num, p);
    lemma_cong_mul(num, num, w * dy2, 1, p);
    lemma_cong_trans(l * (y1 + y1), num * (w * dy2), num * 1, p);
    lemma_cong_trans(l * (y1 + y1), num, g, p);
    // the third point
    let x3i = l * l - x1 - x1;
    let y3i = l * (x1 - x3i) - y1;
    let pt3 = ec_double(p1, a, p);
    let (x3, y3) = (pt3.0, pt3.1);
    lemma_cong_refl(l, p);
    lemma_cong_fmul(l, l, l, l, p);
    lemma_cong_fsub(fmul(l, l, p), x1, l * l, x1, p);
    lemma_cong_fsub(fsub(fmul(l, l, p), x1, p), x1, l * l - x1, x1, p);
    lemma_cong_fsub(x1, x3, x1, x3i, p);
    lemma_cong_fmul(l, fsub(x1, x3, p), l, x1 - x3i, p);
    lemma_cong_fsub(fmul(l, fsub(x1, x3, p), p), y1, l * (x1 - x3i), y1, p);
    // the remainder of the cubic by the tangent: c1 * x + c0, with c1 == 0
    let c1 = a + 2 * l * l * x1 - 2 * l * y1 - (x1 * x1 + x1 * x3i + x1 * x3i);
    let c0 = b - l * l * x1 * x1 + 2 * l * x1 * y1 - y1 * y1 + x1 * x1 * x3i;
    lemma_chord_remainder(x1, x1, x1, x3i, l, y1, a, b, c1, c0);
    lemma_chord_remainder(x3i, x1, x1, x3i, l, y1, a, b, c1, c0);
    assert(c1 == g - l * (y1 + y1)) by (nonlinear_arith)
        requires
            x3i == l * l - x1 - x1,
            c1 == a + 2 * l * l * x1 - 2 * l * y1 - (x1 * x1 + x1 * x3i + x1 * x3i),
            g == x1 * x1 + x1 * x1 + x1 * x1 + a,
    ;
    lemma_cong_refl(g, p);
    lemma_cong_add(g, g, l * (y1 + y1), g, p);
    assert(g - g == 0);
    // at x1 the remainder is f(x1) - y1^2, which vanishes
    assert((x1 - x1) * (x1 - x1) * (x1 - x3i) == 0) by (nonlinear_arith);
    assert(l * (x1 - x1) + y1 == y1);
    let f1 = x1 * x1 * x1 + a * x1 + b;
    lemma_cong_of_mod(y1 * y1, f1 % p, p);
    lemma_cong_mod(f1, p);
    lemma_cong_trans(y1 * y1, f1 % p, f1, p);
    lemma_cong_refl(f1, p);
    lemma_cong_add(f1, f1, y1 * y1, f1, p);
    assert(f1 - y1 * y1 == c1 * x1 + c0);
    assert(f1 - f1 == 0);
    // so c0 vanishes too
    lemma_cong_mul(c1, 0, x1, x1, p);
    lemma_cong_add(c1 * x1 + c0, 0, c1 * x1, 0 * x1, p);
    assert(c1 * x1 + c0 - c1 * x1 == c0);
    assert(0 - 0 * x1 == 0);
    // hence the cubic meets the tangent at x3i
    let f3 = x3i * x3i * x3i + a * x3i + b;
    assert((x3i - x1) * (x3i - x1) * (x3i - x3i) == 0) by (nonlinear_arith);
    assert(y3i * y3i == (l * (x3i - x1) + y1) * (l * (x3i - x1) + y1)) by (nonlinear_arith)
        requires
            y3i == l * (x1 - x3i) - y1,
    ;
    assert(f3 - y3i * y3i == c1 * x3i + c0);
    lemma_cong_refl(x3i, p);
    lemma_cong_mul(c1, 0, x3i, x3i, p);
    lemma_cong_add(c1 * x3i, 0 * x3i, c0, 0, p);
    assert(0 * x3i + 0 == 0);
    lemma_cong_refl(y3i * y3i, p);
    lemma_cong_add(c1 * x3i + c0, 0, y3i * y3i, y3i * y3i, p);
    assert(c1 * x3i + c0 + y3i * y3i == f3);
    assert(0 + y3i * y3i == y3i * y3i);
    // and so does the reduced point
    lemma_cong_mul(y3, y3i, y3, y3i, p);
    lemma_cong_mul(x3, x3i, x3, x3i, p);
    lemma_cong_mul(x3 * x3, x3i * x3i, x3, x3i, p);
    lemma_cong_mul(a, a, x3, x3i, p);
    lemma_cong_add(x3 * x3 * x3, x3i * x3i * x3i, a * x3, a * x3i, p);
    lemma_cong_refl(b, p);
    lemma_cong_add(x3 * x3 * x3 + a * x3, x3i * x3i * x3i + a * x3i, b, b, p);
    assert(cong(f3, y3i * y3i, p));
    lemma_cong_symm(f3, y3i * y3i, p);
    lemma_cong_trans(y3 * y3, y3i * y3i, f3, p);
    lemma_cong_symm(x3 * x3 * x3 + a * x3 + b, f3, p);
    lemma_cong_trans(y3 * y3, f3, x3 * x3 * x3 + a * x3 + b, p);
    lemma_mod_of_cong(y3 * y3, x3 * x3 * x3 + a * x3 + b, p);
}

} // verus!
