//! Arithmetic modulo a run-time modulus.
//!
//! The modulus is below `2^32`, so that the product of two reduced values fits
//! in `u64`. The fields of production curves such as bn256 or secp256k1 do not
//! fit: their emulation by limbs lies outside this library, whose curves are
//! small models of them.
use vstd::arithmetic::div_mod::*;
use vstd::arithmetic::power::*;
use vstd::prelude::*;

verus! {

/// Largest modulus supported: the product of two reduced values fits in `u64`.
pub const MAX_MODULUS: u64 = 0xffff_ffff;

pub open spec fn modulus_ok(p: int) -> bool {
    2 <= p <= MAX_MODULUS
}

pub open spec fn fadd(a: int, b: int, p: int) -> int {
    (a + b) % p
}

pub open spec fn fsub(a: int, b: int, p: int) -> int {
    (a - b) % p
}

pub open spec fn fmul(a: int, b: int, p: int) -> int {
    (a * b) % p
}

pub open spec fn fneg(a: int, p: int) -> int {
    (-a) % p
}

pub open spec fn is_inverse(v: int, a: int, p: int) -> bool {
    0 <= v < p && (v * a) % p == 1
}

pub open spec fn has_inverse(a: int, p: int) -> bool {
    exists|v: int| is_inverse(v, a, p)
}

/// The inverse of `a` modulo `p`, or zero where there is none.
pub open spec fn finv(a: int, p: int) -> int {
    if has_inverse(a, p) {
        choose|v: int| is_inverse(v, a, p)
    } else {
        0
    }
}

/// `a / b` modulo `p`; zero where `b` has no inverse.
pub open spec fn fdiv(a: int, b: int, p: int) -> int {
    fmul(a, finv(b, p), p)
}

pub open spec fn fpow(b: int, e: nat, p: int) -> int {
    pow(b, e) % p
}

pub open spec fn divides(d: int, x: int) -> bool {
    x % d == 0
}

pub proof fn lemma_divides_comb(d: int, x: int, y: int, k1: int, k2: int)
    requires
        d > 0,
        divides(d, x),
        divides(d, y),
    ensures
        divides(d, k1 * x + k2 * y),
{
    lemma_fundamental_div_mod(x, d);
    lemma_fundamental_div_mod(y, d);
    let q = k1 * (x / d) + k2 * (y / d);
    assert(k1 * x + k2 * y == q * d) by (nonlinear_arith)
        requires
            x == d * (x / d),
            y == d * (y / d),
            q == k1 * (x / d) + k2 * (y / d),
    ;
    lemma_mod_multiples_basic(q, d);
}

pub open spec fn is_prime(p: int) -> bool {
    p > 1 && forall|d: int| 1 < d < p ==> #[trigger] (p % d) != 0
}

/// Euclid's algorithm on `(r0, r1)`, each a combination of `a` and `p`:
/// returns `(s, k, g)` with `g = s * a + k * p` dividing both `a` and `p`.
proof fn lemma_euclid(a: int, p: int, r0: int, r1: int, s0: int, s1: int, k0: int, k1: int) -> (res: (
    int,
    int,
    int,
))
    requires
        0 < r0,
        0 <= r1,
        r0 == s0 * a + k0 * p,
        r1 == s1 * a + k1 * p,
        forall|d: int|
            #![trigger divides(d, r0), divides(d, r1)]
            d > 0 && divides(d, r0) && divides(d, r1) ==> divides(d, a) && divides(d, p),
    ensures
        res.2 > 0,
        res.2 == res.0 * a + res.1 * p,
        divides(res.2, a),
        divides(res.2, p),
    decreases r1,
{
    if r1 == 0 {
        lemma_mod_self_0(r0);
        assert(divides(r0, r0));
        assert(divides(r0, 0));
        assert(divides(r0, r1));
        (s0, k0, r0)
    } else {
        let q = r0 / r1;
        let r2 = r0 % r1;
        lemma_fundamental_div_mod(r0, r1);
        let s2 = s0 - q * s1;
        let k2 = k0 - q * k1;
        assert(r2 == s2 * a + k2 * p) by (nonlinear_arith)
            requires
                r0 == r1 * q + r2,
                r0 == s0 * a + k0 * p,
                r1 == s1 * a + k1 * p,
                s2 == s0 - q * s1,
                k2 == k0 - q * k1,
        ;
        assert forall|d: int|
            #![trigger divides(d, r1), divides(d, r2)]
            d > 0 && divides(d, r1) && divides(d, r2) implies divides(d, a) && divides(d, p) by {
            lemma_divides_comb(d, r1, r2, q, 1);
            assert(r0 == q * r1 + 1 * r2) by (nonlinear_arith)
                requires
                    r0 == r1 * q + r2,
            ;
            assert(divides(d, r0));
        }
        lemma_euclid(a, p, r1, r2, s1, s2, k1, k2)
    }
}

/// Modulo a prime, every residue other than zero has an inverse.
pub proof fn lemma_prime_has_inverse(a: int, p: int)
    requires
        is_prime(p),
        0 < a < p,
    ensures
        has_inverse(a, p),
{
    assert forall|d: int|
        #![trigger divides(d, p), divides(d, a)]
        d > 0 && divides(d, p) && divides(d, a) implies divides(d, a) && divides(d, p) by {}
    let (s, k, g) = lemma_euclid(a, p, p, a, 0, 1, 1, 0);
    if g > p {
        lemma_small_mod(p as nat, g as nat);
    }
    if g == p {
        lemma_small_mod(a as nat, p as nat);
    }
    if 1 < g < p {
        assert(p % g != 0);
    }
    assert(g == 1);
    lemma_mod_multiples_vanish(k, s * a, p);
    assert(p * k + s * a == 1);
    lemma_small_mod(1, p as nat);
    let v = s % p;
    lemma_mul_mod_noop_left(s, a, p);
    assert(is_inverse(v, a, p));
}

/// An inverse modulo `p` is unique.
pub proof fn lemma_inverse_unique(v1: int, v2: int, a: int, p: int)
    requires
        p > 1,
        is_inverse(v1, a, p),
        is_inverse(v2, a, p),
    ensures
        v1 == v2,
{
    lemma_mul_mod_noop_right(v1, v2 * a, p);
    lemma_mul_mod_noop_right(v2, v1 * a, p);
    assert(v1 * (v2 * a) == v2 * (v1 * a)) by (nonlinear_arith);
    lemma_small_mod(v1 as nat, p as nat);
    lemma_small_mod(v2 as nat, p as nat);
}

pub fn add_mod(a: u64, b: u64, p: u64) -> (r: u64)
    requires
        modulus_ok(p as int),
        a < p,
        b < p,
    ensures
        r == fadd(a as int, b as int, p as int),
        r < p,
{
    (a + b) % p
}

pub fn sub_mod(a: u64, b: u64, p: u64) -> (r: u64)
    requires
        modulus_ok(p as int),
        a < p,
        b < p,
    ensures
        r == fsub(a as int, b as int, p as int),
        r < p,
{
    proof {
        lemma_mod_add_multiples_vanish(a - b, p as int);
    }
    (a + p - b) % p
}

pub fn neg_mod(a: u64, p: u64) -> (r: u64)
    requires
        modulus_ok(p as int),
        a < p,
    ensures
        r == fneg(a as int, p as int),
        r < p,
{
    proof {
        lemma_mod_add_multiples_vanish(-a, p as int);
    }
    (p - a) % p
}

pub fn mul_mod(a: u64, b: u64, p: u64) -> (r: u64)
    requires
        modulus_ok(p as int),
        a < p,
        b < p,
    ensures
        r == fmul(a as int, b as int, p as int),
        r < p,
{
    proof {
        assert(a * b <= (p - 1) * (p - 1)) by (nonlinear_arith)
            requires
                a < p,
                b < p,
        ;
        assert((p - 1) * (p - 1) <= MAX_MODULUS * MAX_MODULUS) by (nonlinear_arith)
            requires
                p <= MAX_MODULUS,
                p >= 2,
        ;
    }
    (a * b) % p
}

/// The inverse of `a` modulo `p`, by the extended Euclidean algorithm.
pub fn inv_mod(a: u64, p: u64) -> (r: Option<u64>)
    requires
        modulus_ok(p as int),
        a < p,
    ensures
        r.is_some() == has_inverse(a as int, p as int),
        r matches Some(v) ==> v == finv(a as int, p as int),
{
    let ghost ai = a as int;
    let ghost pi = p as int;
    let mut r0: u64 = p;
    let mut r1: u64 = a;
    let mut s0: u64 = 0;
    let mut s1: u64 = 1;
    let ghost mut k0: int = 1;
    let ghost mut k1: int = 0;
    while r1 != 0
        invariant
            modulus_ok(pi),
            ai == a,
            pi == p,
            0 < r0 <= p,
            r1 < p,
            s0 < p,
            s1 < p,
            r0 == s0 * ai + k0 * pi,
            r1 == s1 * ai + k1 * pi,
            forall|d: int|
                #![trigger divides(d, r0 as int), divides(d, r1 as int)]
                d > 0 && divides(d, r0 as int) && divides(d, r1 as int) ==> divides(d, ai)
                    && divides(d, pi),
        decreases r1,
    {
        let q = r0 / r1;
        let r2 = r0 % r1;
        proof {
            lemma_fundamental_div_mod(r0 as int, r1 as int);
            assert(q <= r0) by {
                lemma_div_is_ordered_by_denominator(r0 as int, 1, r1 as int);
            }
            assert(q * s1 <= p * p) by (nonlinear_arith)
                requires
                    q <= p,
                    s1 < p,
            ;
            assert(p * p <= MAX_MODULUS * MAX_MODULUS) by (nonlinear_arith)
                requires
                    p <= MAX_MODULUS,
            ;
        }
        let qs = (q * s1) % p;
        let s2 = (s0 + p - qs) % p;
        proof {
            let w = (q * s1) / pi;
            let c = (s0 + p - qs) / pi;
            lemma_fundamental_div_mod(q * s1, pi);
            lemma_fundamental_div_mod(s0 + p - qs, pi);
            let k2 = k0 - q * k1 - ai - w * ai + c * ai;
            assert(r1 * q == s1 * ai * q + k1 * pi * q) by (nonlinear_arith)
                requires
                    r1 == s1 * ai + k1 * pi,
            ;
            assert(s2 * ai == s0 * ai + pi * ai - q * s1 * ai + pi * w * ai - pi * c * ai)
                by (nonlinear_arith)
                requires
                    s2 == s0 + pi - q * s1 + pi * w - pi * c,
            ;
            assert(k2 * pi == k0 * pi - q * k1 * pi - ai * pi - w * ai * pi + c * ai * pi)
                by (nonlinear_arith)
                requires
                    k2 == k0 - q * k1 - ai - w * ai + c * ai,
            ;
            assert(s1 * ai * q == q * s1 * ai && k1 * pi * q == q * k1 * pi && pi * ai == ai * pi
                && pi * w * ai == w * ai * pi && pi * c * ai == c * ai * pi) by (nonlinear_arith);
            assert(r2 == s2 * ai + k2 * pi);
            let or0 = r0 as int;
            let or1 = r1 as int;
            assert forall|d: int|
                #![trigger divides(d, or1), divides(d, r2 as int)]
                d > 0 && divides(d, or1) && divides(d, r2 as int) implies divides(d, ai)
                    && divides(d, pi) by {
                lemma_divides_comb(d, or1, r2 as int, q as int, 1);
                assert(or0 == q * or1 + 1 * r2) by (nonlinear_arith)
                    requires
                        or0 == or1 * q + r2,
                ;
                assert(divides(d, or0));
            }
            k0 = k1;
            k1 = k2;
        }
        r0 = r1;
        r1 = r2;
        s0 = s1;
        s1 = s2;
    }
    proof {
        lemma_mod_self_0(r0 as int);
        assert(divides(r0 as int, r0 as int));
        assert(divides(r0 as int, 0));
        assert(divides(r0 as int, ai) && divides(r0 as int, pi));
    }
    if r0 == 1 {
        proof {
            lemma_mod_multiples_vanish(k0, s0 * ai, pi);
            assert(pi * k0 + s0 * ai == 1);
            lemma_small_mod(1, pi as nat);
            assert(is_inverse(s0 as int, ai, pi));
            let v = finv(ai, pi);
            lemma_inverse_unique(v, s0 as int, ai, pi);
        }
        Some(s0)
    } else {
        proof {
            assert forall|v: int| !is_inverse(v, ai, pi) by {
                if is_inverse(v, ai, pi) {
                    let t = (v * ai) / pi;
                    lemma_fundamental_div_mod(v * ai, pi);
                    lemma_divides_comb(r0 as int, ai, pi, v, -t);
                    assert(v * ai + (-t) * pi == 1) by (nonlinear_arith)
                        requires
                            v * ai == pi * t + 1,
                    ;
                    lemma_small_mod(1, r0 as nat);
                }
            }
        }
        None
    }
}

/// The number whose little-endian 64-bit words are `s`.
pub open spec fn limbs_value(s: Seq<u64>) -> nat
    decreases s.len(),
{
    if s.len() == 0 {
        0
    } else {
        (s[0] + 0x1_0000_0000_0000_0000 * limbs_value(s.drop_first())) as nat
    }
}

pub proof fn lemma_fpow_mul(b: int, e1: nat, e2: nat, p: int)
    requires
        p > 0,
    ensures
        fmul(fpow(b, e1, p), fpow(b, e2, p), p) == fpow(b, e1 + e2, p),
{
    lemma_mul_mod_noop(pow(b, e1), pow(b, e2), p);
    lemma_pow_adds(b, e1, e2);
}

proof fn lemma_fpow_pow(b: int, e1: nat, e2: nat, p: int)
    requires
        p > 0,
    ensures
        fpow(fpow(b, e1, p), e2, p) == fpow(b, e1 * e2, p),
{
    lemma_pow_mod_noop(pow(b, e1), e2, p);
    lemma_pow_multiplies(b, e1, e2);
}

/// `b` to the power `e` modulo `p`, by square and multiply.
pub fn pow_mod(b: u64, e: u64, p: u64) -> (r: u64)
    requires
        modulus_ok(p as int),
        b < p,
    ensures
        r == fpow(b as int, e as nat, p as int),
        r < p,
    decreases e,
{
    if e == 0 {
        proof {
            reveal(pow);
            lemma_small_mod(1, p as nat);
        }
        return 1;
    }
    let h = pow_mod(b, e / 2, p);
    let h2 = mul_mod(h, h, p);
    proof {
        lemma_fpow_mul(b as int, (e / 2) as nat, (e / 2) as nat, p as int);
    }
    if e % 2 == 1 {
        proof {
            lemma_pow1(b as int);
            lemma_small_mod(b as nat, p as nat);
            lemma_fpow_mul(b as int, (e / 2 + e / 2) as nat, 1, p as int);
        }
        mul_mod(h2, b, p)
    } else {
        h2
    }
}

/// `b` to the power whose little-endian 64-bit words are `exp`, modulo `p`.
pub fn pow_limbs_mod(b: u64, exp: &[u64], p: u64) -> (r: u64)
    requires
        modulus_ok(p as int),
        b < p,
    ensures
        r == fpow(b as int, limbs_value(exp@), p as int),
        r < p,
{
    let mut acc: u64 = 1;
    let mut i: usize = exp.len();
    proof {
        reveal(pow);
        lemma_small_mod(1, p as nat);
        assert(exp@.subrange(i as int, exp@.len() as int).len() == 0);
    }
    while i > 0
        invariant
            modulus_ok(p as int),
            b < p,
            i <= exp@.len(),
            acc < p,
            acc == fpow(b as int, limbs_value(exp@.subrange(i as int, exp@.len() as int)), p as int),
        decreases i,
    {
        let ghost high = limbs_value(exp@.subrange(i as int, exp@.len() as int));
        let t = pow_mod(acc, 0x1_0000_0000, p);
        let shifted = pow_mod(t, 0x1_0000_0000, p);
        let low = pow_mod(b, exp[i - 1], p);
        let next = mul_mod(shifted, low, p);
        proof {
            lemma_fpow_pow(b as int, high, 0x1_0000_0000, p as int);
            lemma_fpow_pow(b as int, high * 0x1_0000_0000, 0x1_0000_0000, p as int);
            let w = exp@[i - 1];
            lemma_fpow_mul(b as int, high * 0x1_0000_0000 * 0x1_0000_0000, w as nat, p as int);
            let s = exp@.subrange(i - 1, exp@.len() as int);
            assert(s.drop_first() =~= exp@.subrange(i as int, exp@.len() as int));
            assert(limbs_value(s) == w + 0x1_0000_0000_0000_0000 * high);
            assert(high * 0x1_0000_0000 * 0x1_0000_0000 + w == w + 0x1_0000_0000_0000_0000 * high)
                by (nonlinear_arith);
        }
        acc = next;
        i = i - 1;
    }
    proof {
        assert(exp@.subrange(0, exp@.len() as int) =~= exp@);
    }
    acc
}

} // verus!
