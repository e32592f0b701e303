//! Points in homogeneous projective coordinates `(X : Y : Z)`, standing for
//! `(X / Z, Y / Z)`, with `(0 : 1 : 0)` the point at infinity.
use crate::curve::{ec_double, AffinePoint, CurveParams};
use crate::field::{fadd, fdiv, fmul, fsub};
use crate::gadget::{val, Boolean, ConstraintSystem, FieldElement, SynthesisError};
use crate::scalar_mul::width_of;
use vstd::arithmetic::power2::pow2;
use vstd::prelude::*;

verus! {

pub type ProjValue = (int, int, int);

/// Complete mixed addition `q1 + q2` of a projective and an affine point on
/// `y^2 = x^3 + a x + b`, with `b3 = 3 b`, for curves of odd order
/// (Renes, Costello and Batina, algorithm 2).
pub open spec fn proj_add_mixed(q1: ProjValue, q2: (int, int), a: int, b3: int, p: int) -> ProjValue {
    let (x1, y1, z1) = (q1.0, q1.1, q1.2);
    let (x2, y2) = (q2.0, q2.1);
    let t0 = fmul(x1, x2, p);
    let t1 = fmul(y1, y2, p);
    let t3 = fsub(fmul(fadd(x2, y2, p), fadd(x1, y1, p), p), fadd(t0, t1, p), p);
    let t4 = fadd(fmul(x2, z1, p), x1, p);
    let t5 = fadd(fmul(y2, z1, p), y1, p);
    let z3 = fadd(fmul(b3, z1, p), fmul(a, t4, p), p);
    let x3 = fsub(t1, z3, p);
    let z3 = fadd(t1, z3, p);
    let y3 = fmul(x3, z3, p);
    let t2 = fmul(a, z1, p);
    let t1 = fadd(fadd(fadd(t0, t0, p), t0, p), t2, p);
    let t2 = fmul(a, fsub(t0, t2, p), p);
    let t4 = fadd(fmul(b3, t4, p), t2, p);
    let y3 = fadd(y3, fmul(t1, t4, p), p);
    let x3 = fsub(fmul(t3, x3, p), fmul(t5, t4, p), p);
    let z3 = fadd(fmul(t5, z3, p), fmul(t3, t1, p), p);
    (x3, y3, z3)
}

/// A point in projective coordinates, whose value may be absent.
#[derive(Clone, Copy, Debug)]
pub struct ProjectivePoint {
    pub x: FieldElement,
    pub y: FieldElement,
    pub z: FieldElement,
    pub circuit_params: CurveParams,
}

impl ProjectivePoint {
    pub open spec fn wf(&self) -> bool {
        &&& self.circuit_params.wf()
        &&& self.x.wf() && self.y.wf() && self.z.wf()
        &&& self.x.modulus == self.circuit_params.modulus
        &&& self.y.modulus == self.circuit_params.modulus
        &&& self.z.modulus == self.circuit_params.modulus
        &&& self.x.value is Some == self.y.value is Some
        &&& self.x.value is Some == self.z.value is Some
    }

    pub open spec fn view(&self) -> Option<ProjValue> {
        if self.x.value is Some && self.y.value is Some && self.z.value is Some {
            Some((val(self.x.value), val(self.y.value), val(self.z.value)))
        } else {
            None
        }
    }

    pub open spec fn p(&self) -> int {
        self.circuit_params.p()
    }

    /// `3 b` modulo `p`.
    pub open spec fn b3(params: CurveParams) -> int {
        fadd(fadd(params.b as int, params.b as int, params.p()), params.b as int, params.p())
    }

    /// The point at infinity, `(0 : 1 : 0)`.
    pub fn zero(params: &CurveParams) -> (r: Self)
        requires
            params.wf(),
        ensures
            r.wf(),
            r.circuit_params == *params,
            r@ == Some((0int, 1int, 0int)),
    {
        ProjectivePoint {
            x: FieldElement::constant(0, params.modulus),
            y: FieldElement::constant(1, params.modulus),
            z: FieldElement::constant(0, params.modulus),
            circuit_params: *params,
        }
    }

    /// `self + other` by the complete mixed formula: no case is exceptional.
    pub fn add_mixed(&self, other: &AffinePoint) -> (r: Self)
        requires
            self.wf(),
            other.wf(),
            other.circuit_params == self.circuit_params,
        ensures
            r.wf(),
            r.circuit_params == self.circuit_params,
            r@ == if self@ is Some && other@ is Some {
                Some(
                    proj_add_mixed(
                        self@->0,
                        other@->0,
                        self.circuit_params.a as int,
                        Self::b3(self.circuit_params),
                        self.p(),
                    ),
                )
            } else {
                None
            },
    {
        let params = self.circuit_params;
        let a = FieldElement::constant(params.a, params.modulus);
        let b = FieldElement::constant(params.b, params.modulus);
        let b3 = b.add(&b).add(&b);
        let (x1, y1, z1) = (&self.x, &self.y, &self.z);
        let (x2, y2) = (&other.x, &other.y);
        let t0 = x1.mul(x2);
        let t1 = y1.mul(y2);
        let t3 = x2.add(y2).mul(&x1.add(y1)).sub(&t0.add(&t1));
        let t4 = x2.mul(z1).add(x1);
        let t5 = y2.mul(z1).add(y1);
        let z3 = b3.mul(z1).add(&a.mul(&t4));
        let x3 = t1.sub(&z3);
        let z3 = t1.add(&z3);
        let y3 = x3.mul(&z3);
        let t2 = a.mul(z1);
        let t1 = t0.add(&t0).add(&t0).add(&t2);
        let t2 = a.mul(&t0.sub(&t2));
        let t4 = b3.mul(&t4).add(&t2);
        let y3 = y3.add(&t1.mul(&t4));
        let x3 = t3.mul(&x3).sub(&t5.mul(&t4));
        let z3 = t5.mul(&z3).add(&t3.mul(&t1));
        ProjectivePoint { x: x3, y: y3, z: z3, circuit_params: params }
    }

    /// `first` where `flag` is set, else `second`.
    pub fn conditionally_select(flag: &Boolean, first: &Self, second: &Self) -> (r: Self)
        requires
            first.wf(),
            second.wf(),
            first.circuit_params == second.circuit_params,
        ensures
            r.wf(),
            r.circuit_params == first.circuit_params,
            r@ == match flag.value {
                Some(true) => first@,
                Some(false) => second@,
                None => None,
            },
    {
        ProjectivePoint {
            x: FieldElement::conditionally_select(flag, &first.x, &second.x),
            y: FieldElement::conditionally_select(flag, &first.y, &second.y),
            z: FieldElement::conditionally_select(flag, &first.z, &second.z),
            circuit_params: first.circuit_params,
        }
    }

    /// The affine point `(X / Z, Y / Z)`; both divisions enforce their relation,
    /// which fails for the point at infinity.
    pub fn convert_to_affine(&self, cs: &mut ConstraintSystem) -> (r: AffinePoint)
        requires
            self.wf(),
        ensures
            r.wf(),
            r.circuit_params == self.circuit_params,
            r@ == match self@ {
                Some(q) => Some((fdiv(q.0, q.2, self.p()), fdiv(q.1, q.2, self.p()))),
                None => None,
            },
            *final(cs) == old(cs).enforced(
                self@ matches Some(q) ==> crate::curve::division_ok(q.0, q.2, self.p())
                    && crate::curve::division_ok(q.1, q.2, self.p()),
            ),
    {
        let x = FieldElement::div(cs, &self.x, &self.z);
        let y = FieldElement::div(cs, &self.y, &self.z);
        AffinePoint::from_xy_unchecked(x, y, &self.circuit_params)
    }
}

/// The bits of `k` over width `m`, least significant first.
pub open spec fn binary_digits(k: int, m: nat) -> Seq<bool> {
    Seq::new(m, |i: int| (k / pow2(i as nat) as int) % 2 == 1)
}

/// The accumulator and the doubled multiplicand after the given bits: each
/// bit adds the multiplicand where set, then the multiplicand doubles.
pub open spec fn prime_mul_state(q: (int, int), bits: Seq<bool>, a: int, b3: int, p: int) -> (ProjValue, (int, int))
    decreases bits.len(),
{
    if bits.len() == 0 {
        ((0, 1, 0), q)
    } else {
        let prev = prime_mul_state(q, bits.drop_last(), a, b3, p);
        let added = proj_add_mixed(prev.0, prev.1, a, b3, p);
        (if bits.last() { added } else { prev.0 }, ec_double(prev.1, a, p))
    }
}

/// `q` doubled `n` times by the tangent formula.
pub open spec fn tangent_chain(q: (int, int), n: nat, a: int, p: int) -> (int, int)
    decreases n,
{
    if n == 0 {
        q
    } else {
        ec_double(tangent_chain(q, (n - 1) as nat, a, p), a, p)
    }
}

/// The relations that `n` tangent doublings of `q` enforce.
pub open spec fn doublings_ok(q: (int, int), n: nat, a: int, p: int) -> bool
    decreases n,
{
    n == 0 || (doublings_ok(q, (n - 1) as nat, a, p) && crate::curve::ec_double_ok(
        tangent_chain(q, (n - 1) as nat, a, p),
        a,
        p,
    ))
}

/// The accumulator where the point is absent and the bits are known: the
/// point at infinity until the first set bit, absent from then on.
pub open spec fn absent_acc(bits: Seq<bool>) -> Option<ProjValue>
    decreases bits.len(),
{
    if bits.len() == 0 {
        Some((0, 1, 0))
    } else if bits.last() {
        None
    } else {
        absent_acc(bits.drop_last())
    }
}

proof fn lemma_multiplicand_is_chain(q: (int, int), bits: Seq<bool>, a: int, b3: int, p: int)
    ensures
        prime_mul_state(q, bits, a, b3, p).1 == tangent_chain(q, bits.len(), a, p),
    decreases bits.len(),
{
    if bits.len() > 0 {
        lemma_multiplicand_is_chain(q, bits.drop_last(), a, b3, p);
    }
}

impl AffinePoint {
    /// The bits of `scalar` over the width of its field, least significant first.
    pub fn decompose_into_binary_representation(scalar: &FieldElement) -> (r: Vec<Boolean>)
        requires
            scalar.wf(),
        ensures
            r@.len() == width_of(scalar.modulus as nat),
            r@.len() >= 1,
            scalar.value is Some ==> forall|i: int| 0 <= i < r@.len() ==> (#[trigger] r@[i]).value
                == Some(binary_digits(val(scalar.value), r@.len() as nat)[i]),
            scalar.value is None ==> forall|i: int| 0 <= i < r@.len() ==> (#[trigger] r@[i]).value is None,
    {
        let (m, _pw) = crate::scalar_mul::bit_length(scalar.modulus);
        proof {
            vstd::arithmetic::power2::lemma2_to64();
        }
        let mut bits: Vec<Boolean> = Vec::new();
        let mut cur: u64 = match scalar.value {
            Some(k) => k,
            None => 0,
        };
        let mut pw: u64 = 1;
        let mut i: u64 = 0;
        proof {
            vstd::arithmetic::power2::lemma2_to64();
        }
        while i < m
            invariant
                m <= 32,
                i <= m,
                m == width_of(scalar.modulus as nat),
                bits@.len() == i,
                pw == pow2(i as nat),
                scalar.value matches Some(k) ==> cur == k / pw,
                scalar.value is Some ==> forall|j: int| 0 <= j < i ==> (#[trigger] bits@[j]).value
                    == Some(binary_digits(val(scalar.value), m as nat)[j]),
                scalar.value is None ==> forall|j: int| 0 <= j < i ==> (#[trigger] bits@[j]).value is None,
            decreases m - i,
        {
            let b = match scalar.value {
                Some(_) => Some(cur % 2 == 1),
                None => None,
            };
            bits.push(Boolean::allocate(b));
            proof {
                vstd::arithmetic::power2::lemma_pow2_unfold((i + 1) as nat);
                vstd::arithmetic::power2::lemma_pow2_pos(i as nat);
                if let Some(k) = scalar.value {
                    vstd::arithmetic::div_mod::lemma_div_denominator(k as int, pw as int, 2);
                }
                vstd::arithmetic::power2::lemma2_to64();
                if i + 1 < 33 {
                    vstd::arithmetic::power2::lemma_pow2_strictly_increases((i + 1) as nat, 33);
                }
            }
            cur = cur / 2;
            pw = pw * 2;
            i = i + 1;
        }
        bits
    }

    /// `scalar * self` on a curve of prime order, as a projective point:
    /// for each bit, least significant first, the multiplicand is added to a
    /// projective accumulator where the bit is set, then doubled.
    pub fn mul_by_scalar_for_prime_order_curve(&self, cs: &mut ConstraintSystem, scalar: &FieldElement) -> (r:
        Result<ProjectivePoint, SynthesisError>)
        requires
            self.wf(),
            scalar.wf(),
            scalar.modulus == self.circuit_params.scalar_modulus,
        ensures
            r matches Ok(res) && res.wf() && res.circuit_params == self.circuit_params && res@ == (
            if self@ is Some && scalar.value is Some {
                Some(
                    prime_mul_state(
                        self@->0,
                        binary_digits(val(scalar.value), width_of(scalar.modulus as nat)),
                        self.a(),
                        ProjectivePoint::b3(self.circuit_params),
                        self.p(),
                    ).0,
                )
            } else if scalar.value is Some {
                absent_acc(binary_digits(val(scalar.value), width_of(scalar.modulus as nat)))
            } else {
                None
            }),
            *final(cs) == old(cs).enforced(
                self@ is Some ==> doublings_ok(
                    self@->0,
                    width_of(scalar.modulus as nat),
                    self.a(),
                    self.p(),
                ),
            ),
    {
        let ghost cs0 = *cs;
        let params = self.circuit_params;
        let scalar_decomposition = Self::decompose_into_binary_representation(scalar);
        let mut acc = ProjectivePoint::zero(&params);
        let mut tmp = *self;
        let ghost digits = binary_digits(val(scalar.value), width_of(scalar.modulus as nat));
        let ghost b3 = ProjectivePoint::b3(params);
        let mut i: usize = 0;
        while i < scalar_decomposition.len()
            invariant
                self.wf(),
                params == self.circuit_params,
                b3 == ProjectivePoint::b3(params),
                digits == binary_digits(val(scalar.value), width_of(scalar.modulus as nat)),
                i <= scalar_decomposition@.len(),
                scalar_decomposition@.len() == width_of(scalar.modulus as nat),
                digits.len() == scalar_decomposition@.len(),
                scalar.value is Some ==> forall|j: int| 0 <= j < scalar_decomposition@.len() ==> (#[trigger] scalar_decomposition@[j]).value
                    == Some(digits[j]),
                scalar.value is None ==> forall|j: int| 0 <= j < scalar_decomposition@.len() ==> (#[trigger] scalar_decomposition@[j]).value is None,
                acc.wf(),
                acc.circuit_params == params,
                tmp.wf(),
                tmp.circuit_params == params,
                self@ is Some && scalar.value is Some ==> acc@ == Some(
                    prime_mul_state(self@->0, digits.take(i as int), self.a(), b3, self.p()).0,
                ),
                self@ is None && scalar.value is Some ==> acc@ == absent_acc(digits.take(i as int)),
                scalar.value is None ==> (i == 0 || acc@ is None),
                self@ is Some ==> tmp@ == Some(tangent_chain(self@->0, i as nat, self.a(), self.p())),
                self@ is None ==> tmp@ is None,
                *cs == cs0.enforced(self@ is Some ==> doublings_ok(self@->0, i as nat, self.a(), self.p())),
            decreases scalar_decomposition@.len() - i,
        {
            let bit = scalar_decomposition[i];
            let ghost acc0 = acc;
            let added = acc.add_mixed(&tmp);
            proof {
                if self@ is Some && scalar.value is Some {
                    lemma_multiplicand_is_chain(self@->0, digits.take(i as int), self.a(), b3, self.p());
                    assert(added@ == Some(proj_add_mixed(acc0@->0, tmp@->0, self.a(), b3, self.p())));
                }
            }
            acc = ProjectivePoint::conditionally_select(&bit, &added, &acc);
            proof {
                if self@ is Some && scalar.value is Some {
                    assert(acc@ == if digits[i as int] { added@ } else { acc0@ });
                }
            }
            tmp = tmp.tangent_double(cs);
            proof {
                assert(digits.take(i + 1).drop_last() =~= digits.take(i as int));
                assert(digits.take(i + 1).last() == digits[i as int]);
                if self@ is Some && scalar.value is Some {
                    let q = self@->0;
                    let prev = prime_mul_state(q, digits.take(i as int), self.a(), b3, self.p());
                    assert(prime_mul_state(q, digits.take(i + 1), self.a(), b3, self.p()) == (
                        if digits[i as int] {
                            proj_add_mixed(prev.0, prev.1, self.a(), b3, self.p())
                        } else {
                            prev.0
                        },
                        ec_double(prev.1, self.a(), self.p()),
                    ));
                    assert(bit.value == Some(digits[i as int]));
                }
            }
            i = i + 1;
        }
        proof {
            assert(digits.take(digits.len() as int) =~= digits);
        }
        Ok(acc)
    }
}

} // verus!
