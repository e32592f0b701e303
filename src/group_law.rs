//! Facts about the group law: the chord of two points of the curve meets it
//! in a third point.
use crate::curve::{ec_add, on_curve};
use crate::field::{
    divides, finv, fmul, fsub, is_inverse, is_prime, lemma_divides_comb, lemma_prime_has_inverse,
};
use vstd::arithmetic::div_mod::{lemma_fundamental_div_mod, lemma_mod_multiples_basic};
use vstd::prelude::*;

verus! {

/// `u` and `v` are congruent modulo `p`.
pub open spec fn cong(u: int, v: int, p: int) -> bool {
    divides(p, u - v)
}

pub proof fn lemma_cong_mod(u: int, p: int)
    requires
        p > 0,
    ensures
        cong(u % p, u, p),
        cong(u, u % p, p),
{
    lemma_fundamental_div_mod(u, p);
    lemma_mod_multiples_basic(-(u / p), p);
    lemma_mod_multiples_basic(u / p, p);
    assert(u % p - u == (-(u / p)) * p) by (nonlinear_arith)
        requires
            u == p * (u / p) + u % p,
    ;
    assert(u - u % p == (u / p) * p) by (nonlinear_arith)
        requires
            u == p * (u / p) + u % p,
    ;
}

pub proof fn lemma_cong_refl(u: int, p: int)
    requires
        p > 0,
    ensures
        cong(u, u, p),
{
    lemma_mod_multiples_basic(0, p);
}

pub proof fn lemma_cong_symm(u: int, v: int, p: int)
    requires
        p > 0,
        cong(u, v, p),
    ensures
        cong(v, u, p),
{
    lemma_divides_comb(p, u - v, 0, -1, 0);
    assert((-1) * (u - v) + 0 * 0 == v - u);
}

pub proof fn lemma_cong_trans(u: int, v: int, w: int, p: int)
    requires
        p > 0,
        cong(u, v, p),
        cong(v, w, p),
    ensures
        cong(u, w, p),
{
    lemma_divides_comb(p, u - v, v - w, 1, 1);
    assert(1 * (u - v) + 1 * (v - w) == u - w);
}

pub proof fn lemma_cong_add(u1: int, v1: int, u2: int, v2: int, p: int)
    requires
        p > 0,
        cong(u1, v1, p),
        cong(u2, v2, p),
    ensures
        cong(u1 + u2, v1 + v2, p),
        cong(u1 - u2, v1 - v2, p),
{
    lemma_divides_comb(p, u1 - v1, u2 - v2, 1, 1);
    lemma_divides_comb(p, u1 - v1, u2 - v2, 1, -1);
    assert(1 * (u1 - v1) + 1 * (u2 - v2) == (u1 + u2) - (v1 + v2));
    assert(1 * (u1 - v1) + (-1) * (u2 - v2) == (u1 - u2) - (v1 - v2));
}

pub proof fn lemma_cong_mul(u1: int, v1: int, u2: int, v2: int, p: int)
    requires
        p > 0,
        cong(u1, v1, p),
        cong(u2, v2, p),
    ensures
        cong(u1 * u2, v1 * v2, p),
{
    lemma_divides_comb(p, u1 - v1, u2 - v2, u2, v1);
    assert(u2 * (u1 - v1) + v1 * (u2 - v2) == u1 * u2 - v1 * v2) by (nonlinear_arith);
}

/// A remainder `r` means congruence with `r`.
pub proof fn lemma_cong_of_mod(u: int, r: int, p: int)
    requires
        p > 0,
        u % p == r,
    ensures
        cong(u, r, p),
{
    lemma_cong_mod(u, p);
}

/// Congruent values have one remainder.
pub proof fn lemma_mod_of_cong(u: int, v: int, p: int)
    requires
        p > 0,
        cong(u, v, p),
    ensures
        u % p == v % p,
{
    lemma_fundamental_div_mod(u, p);
    lemma_fundamental_div_mod(v, p);
    lemma_fundamental_div_mod(u - v, p);
    let k = (u - v) / p;
    assert(u == v + k * p) by (nonlinear_arith)
        requires
            u - v == p * k + (u - v) % p,
            (u - v) % p == 0,
    ;
    vstd::arithmetic::div_mod::lemma_mod_multiples_vanish(k, v, p);
    assert(p * k + v == u) by (nonlinear_arith)
        requires
            u == v + k * p,
    ;
}

/// The cubic of the curve minus the square of the chord of slope `l` through
/// `(x1, y1)`, minus `(x - x1)(x - x2)(x - x3)` with `x3 = l^2 - x1 - x2`,
/// is the linear `c1 * x + c0`.
pub proof fn lemma_chord_remainder(x: int, x1: int, x2: int, x3: int, l: int, y1: int, a: int, b: int, c1: int, c0: int)
    requires
        x3 == l * l - x2 - x1,
        c1 == a + 2 * l * l * x1 - 2 * l * y1 - (x1 * x2 + x1 * x3 + x2 * x3),
        c0 == b - l * l * x1 * x1 + 2 * l * x1 * y1 - y1 * y1 + x1 * x2 * x3,
    ensures
        x * x * x + a * x + b - (l * (x - x1) + y1) * (l * (x - x1) + y1) - (x - x1) * (x - x2) * (x
            - x3) == c1 * x + c0,
{
    let ll = l * l;
    let s = x - x1;
    let u = l * s;
    assert((u + y1) * (u + y1) == u * u + 2 * (u * y1) + y1 * y1) by (nonlinear_arith);
    assert(u * u == ll * (s * s)) by (nonlinear_arith)
        requires
            u == l * s,
            ll == l * l,
    ;
    assert(s * s == x * x - 2 * (x1 * x) + x1 * x1) by (nonlinear_arith)
        requires
            s == x - x1,
    ;
    assert(ll * (s * s) == ll * (x * x) - 2 * (ll * (x1 * x)) + ll * (x1 * x1)) by (nonlinear_arith)
        requires
            s * s == x * x - 2 * (x1 * x) + x1 * x1,
    ;
    assert(u * y1 == l * y1 * x - l * x1 * y1) by (nonlinear_arith)
        requires
            u == l * (x - x1),
    ;
    let t = x3;
    assert((x - x1) * (x - x2) == x * x - (x1 + x2) * x + x1 * x2) by (nonlinear_arith);
    assert((x * x - (x1 + x2) * x + x1 * x2) * (x - t) == x * x * x - (x1 + x2 + t) * (x * x) + (x1 * x2 + (x1
        + x2) * t) * x - x1 * x2 * t) by (nonlinear_arith);
    assert((x1 + x2 + t) * (x * x) == ll * (x * x)) by {
        assert(x1 + x2 + t == ll);
    }
    assert((x1 * x2 + (x1 + x2) * t) == x1 * x2 + x1 * t + x2 * t) by (nonlinear_arith);
    assert(ll * (x1 * x) == l * l * x1 * x) by (nonlinear_arith)
        requires
            ll == l * l,
    ;
    assert(ll * (x1 * x1) == l * l * x1 * x1) by (nonlinear_arith)
        requires
            ll == l * l,
    ;
    assert(c1 * x == a * x + 2 * (l * l * x1 * x) - 2 * (l * y1 * x) - (x1 * x2 + x1 * t + x2 * t) * x)
        by (nonlinear_arith)
        requires
            c1 == a + 2 * l * l * x1 - 2 * l * y1 - (x1 * x2 + x1 * t + x2 * t),
    ;
    assert(2 * l * x1 * y1 == 2 * (l * x1 * y1)) by (nonlinear_arith);
}

/// Over a prime field, the sum of two points of the curve with distinct
/// abscissae (two points that are neither equal nor inverse) lies on the curve.
pub proof fn lemma_add_on_curve(p1: (int, int), p2: (int, int), a: int, b: int, p: int)
    requires
        is_prime(p),
        on_curve(p1, a, b, p),
        on_curve(p2, a, b, p),
        p1.0 % p != p2.0 % p,
    ensures
        on_curve(ec_add(p1, p2, p), a, b, p),
{
    // the abscissae differ by a nonzero residue
    assert(fsub(p2.0, p1.0, p) != 0) by {
        if fsub(p2.0, p1.0, p) == 0 {
            lemma_cong_of_mod(p2.0 - p1.0, 0, p);
            lemma_cong_refl(p1.0, p);
            lemma_cong_add(p2.0 - p1.0, 0, p1.0, p1.0, p);
            assert(p2.0 - p1.0 + p1.0 == p2.0);
            lemma_mod_of_cong(p2.0, 0 + p1.0, p);
        }
    }
    lemma_prime_has_inverse(fsub(p2.0, p1.0, p), p);
    let (x1, y1, x2, y2) = (p1.0, p1.1, p2.0, p2.1);
    let d = x2 - x1;
    let n = y2 - y1;
    let dx = fsub(x2, x1, p);
    let dy = fsub(y2, y1, p);
    let w = finv(dx, p);
    assert(is_inverse(w, dx, p));
    let l = fmul(dy, w, p);
    // the slope: l * d == n
    lemma_cong_of_mod(w * dx, 1, p);
    lemma_cong_mod(d, p);
    lemma_cong_mod(n, p);
    lemma_cong_mod(dy * w, p);
    lemma_cong_refl(w, p);
    lemma_cong_mul(w, w, d, dx, p);
    lemma_cong_trans(w * d, w * dx, 1, p);
    lemma_cong_refl(d, p);
    lemma_cong_mul(l, dy * w, d, d, p);
    assert(dy * w * d == dy * (w * d)) by (nonlinear_arith);
    lemma_cong_refl(dy, p);
    lemma_cong_mul(dy, dy, w * d, 1, p);
    lemma_cong_trans(l * d, dy * (w * d), dy * 1, p);
    lemma_cong_symm(n, dy, p);
    lemma_cong_trans(l * d, dy, n, p);
    // the third point
    let x3i = l * l - x2 - x1;
    let y3i = l * (x1 - x3i) - y1;
    let pt3 = ec_add(p1, p2, p);
    let (x3, y3) = (pt3.0, pt3.1);
    lemma_cong_mod(l * l, p);
    lemma_cong_mod(l * l - x2, p);
    lemma_cong_mod(fmul(l, l, p) - x2, p);
    lemma_cong_refl(x2, p);
    lemma_cong_refl(x1, p);
    lemma_cong_add(fmul(l, l, p), l * l, x2, x2, p);
    lemma_cong_trans(fsub(fmul(l, l, p), x2, p), fmul(l, l, p) - x2, l * l - x2, p);
    lemma_cong_add(fsub(fmul(l, l, p), x2, p), l * l - x2, x1, x1, p);
    lemma_cong_mod(fsub(fmul(l, l, p), x2, p) - x1, p);
    lemma_cong_trans(x3, fsub(fmul(l, l, p), x2, p) - x1, x3i, p);
    lemma_cong_add(x1, x1, x3, x3i, p);
    lemma_cong_mod(x1 - x3, p);
    lemma_cong_trans(fsub(x1, x3, p), x1 - x3, x1 - x3i, p);
    lemma_cong_refl(l, p);
    lemma_cong_mul(l, l, fsub(x1, x3, p), x1 - x3i, p);
    lemma_cong_mod(l * fsub(x1, x3, p), p);
    lemma_cong_trans(fmul(l, fsub(x1, x3, p), p), l * fsub(x1, x3, p), l * (x1 - x3i), p);
    lemma_cong_refl(y1, p);
    lemma_cong_add(fmul(l, fsub(x1, x3, p), p), l * (x1 - x3i), y1, y1, p);
    lemma_cong_mod(fmul(l, fsub(x1, x3, p), p) - y1, p);
    lemma_cong_trans(y3, fmul(l, fsub(x1, x3, p), p) - y1, y3i, p);
    // the remainder of the cubic by the chord: c1 * x + c0
    let c1 = a + 2 * l * l * x1 - 2 * l * y1 - (x1 * x2 + x1 * x3i + x2 * x3i);
    let c0 = b - l * l * x1 * x1 + 2 * l * x1 * y1 - y1 * y1 + x1 * x2 * x3i;
    lemma_chord_remainder(x1, x1, x2, x3i, l, y1, a, b, c1, c0);
    lemma_chord_remainder(x2, x1, x2, x3i, l, y1, a, b, c1, c0);
    lemma_chord_remainder(x3i, x1, x2, x3i, l, y1, a, b, c1, c0);
    // it vanishes at x1
    assert((x1 - x1) * (x1 - x2) * (x1 - x3i) == 0) by (nonlinear_arith);
    assert(x1 * x1 * x1 + a * x1 + b - (l * (x1 - x1) + y1) * (l * (x1 - x1) + y1) == c1 * x1 + c0);
    assert(l * (x1 - x1) + y1 == y1);
    lemma_cong_of_mod(y1 * y1, (x1 * x1 * x1 + a * x1 + b) % p, p);
    lemma_cong_mod(x1 * x1 * x1 + a * x1 + b, p);
    lemma_cong_trans(y1 * y1, (x1 * x1 * x1 + a * x1 + b) % p, x1 * x1 * x1 + a * x1 + b, p);
    lemma_cong_refl(x1 * x1 * x1 + a * x1 + b, p);
    lemma_cong_add(x1 * x1 * x1 + a * x1 + b, x1 * x1 * x1 + a * x1 + b, y1 * y1, x1 * x1 * x1 + a * x1 + b, p);
    assert(cong(c1 * x1 + c0, 0, p));
    // and at x2, where the chord passes through p2
    assert((x2 - x1) * (x2 - x2) * (x2 - x3i) == 0) by (nonlinear_arith);
    assert(x2 * x2 * x2 + a * x2 + b - (l * (x2 - x1) + y1) * (l * (x2 - x1) + y1) == c1 * x2 + c0);
    lemma_cong_add(l * d, n, y1, y1, p);
    assert(n + y1 == y2);
    lemma_cong_mul(l * (x2 - x1) + y1, y2, l * (x2 - x1) + y1, y2, p);
    lemma_cong_of_mod(y2 * y2, (x2 * x2 * x2 + a * x2 + b) % p, p);
    lemma_cong_mod(x2 * x2 * x2 + a * x2 + b, p);
    lemma_cong_trans(y2 * y2, (x2 * x2 * x2 + a * x2 + b) % p, x2 * x2 * x2 + a * x2 + b, p);
    lemma_cong_trans(
        (l * (x2 - x1) + y1) * (l * (x2 - x1) + y1),
        y2 * y2,
        x2 * x2 * x2 + a * x2 + b,
        p,
    );
    lemma_cong_refl(x2 * x2 * x2 + a * x2 + b, p);
    lemma_cong_add(
        x2 * x2 * x2 + a * x2 + b,
        x2 * x2 * x2 + a * x2 + b,
        (l * (x2 - x1) + y1) * (l * (x2 - x1) + y1),
        x2 * x2 * x2 + a * x2 + b,
        p,
    );
    assert(cong(c1 * x2 + c0, 0, p));
    // so c1 * d vanishes, and with it c1 and c0
    lemma_cong_add(c1 * x2 + c0, 0, c1 * x1 + c0, 0, p);
    assert(c1 * x2 + c0 - (c1 * x1 + c0) == c1 * d) by (nonlinear_arith)
        requires
            d == x2 - x1,
    ;
    lemma_cong_refl(c1, p);
    lemma_cong_mul(c1 * d, 0, w, w, p);
    lemma_cong_mul(c1, c1, w * d, 1, p);
    assert(c1 * d * w == c1 * (w * d)) by (nonlinear_arith);
    lemma_cong_symm(c1 * (w * d), c1 * 1, p);
    lemma_cong_trans(c1, c1 * (w * d), 0, p);
    lemma_cong_refl(x1, p);
    lemma_cong_mul(c1, 0, x1, x1, p);
    lemma_cong_add(c1 * x1 + c0, 0, c1 * x1, 0 * x1, p);
    assert(c1 * x1 + c0 - c1 * x1 == c0);
    // hence the cubic meets the chord at x3i
    assert((x3i - x1) * (x3i - x2) * (x3i - x3i) == 0) by (nonlinear_arith);
    assert(x3i * x3i * x3i + a * x3i + b - (l * (x3i - x1) + y1) * (l * (x3i - x1) + y1) == c1 * x3i + c0);
    lemma_cong_refl(x3i, p);
    lemma_cong_mul(c1, 0, x3i, x3i, p);
    lemma_cong_add(c1 * x3i, 0 * x3i, c0, 0, p);
    assert(y3i * y3i == (l * (x3i - x1) + y1) * (l * (x3i - x1) + y1)) by (nonlinear_arith)
        requires
            y3i == l * (x1 - x3i) - y1,
    ;
    // and so does the reduced point
    lemma_cong_mul(y3, y3i, y3, y3i, p);
    lemma_cong_mul(x3, x3i, x3, x3i, p);
    lemma_cong_mul(x3 * x3, x3i * x3i, x3, x3i, p);
    lemma_cong_refl(a, p);
    lemma_cong_mul(a, a, x3, x3i, p);
    lemma_cong_add(x3 * x3 * x3, x3i * x3i * x3i, a * x3, a * x3i, p);
    lemma_cong_refl(b, p);
    lemma_cong_add(x3 * x3 * x3 + a * x3, x3i * x3i * x3i + a * x3i, b, b, p);
    lemma_cong_symm(x3 * x3 * x3 + a * x3 + b, x3i * x3i * x3i + a * x3i + b, p);
    // x3i^3 + a x3i + b - y3i^2 == c1 x3i + c0, which vanishes
    let f3 = x3i * x3i * x3i + a * x3i + b;
    assert(f3 - y3i * y3i == c1 * x3i + c0);
    assert(0 * x3i + 0 == 0);
    lemma_cong_refl(y3i * y3i, p);
    lemma_cong_add(c1 * x3i + c0, 0, y3i * y3i, y3i * y3i, p);
    assert(c1 * x3i + c0 + y3i * y3i == f3);
    assert(0 + y3i * y3i == y3i * y3i);
    lemma_cong_symm(f3, y3i * y3i, p);
    lemma_cong_trans(y3 * y3, y3i * y3i, f3, p);
    lemma_cong_trans(y3 * y3, x3i * x3i * x3i + a * x3i + b, x3 * x3 * x3 + a * x3 + b, p);
    lemma_mod_of_cong(y3 * y3, x3 * x3 * x3 + a * x3 + b, p);
}

} // verus!
