//! Decompositions of a scalar and the two scalar-multiplication algorithms.
use crate::curve::{
    ec_add_ok, ec_double_and_add, ec_double_and_add_ok, ec_neg, ec_sub, ec_sub_ok, pt_add,
    AffinePoint, CurveParams, CurvePoint,
};
use crate::gadget::{val, Boolean, ConstraintSystem, FieldElement, SynthesisError};
use vstd::arithmetic::div_mod::{lemma_div_denominator, lemma_fundamental_div_mod, lemma_small_mod};
use vstd::arithmetic::power2::{lemma2_to64, lemma_pow2_pos, lemma_pow2_strictly_increases, lemma_pow2_unfold, pow2};
use vstd::prelude::*;

verus! {

/// The value of skewed digits read most significant first after a leading
/// `+1` digit: a set bit is the digit `-1`, a clear bit `+1`.
pub open spec fn skew_value(bits: Seq<bool>) -> int
    decreases bits.len(),
{
    if bits.len() == 0 {
        1
    } else {
        2 * skew_value(bits.drop_last()) + if bits.last() {
            -1int
        } else {
            1int
        }
    }
}

/// The value of bits read least significant first.
pub open spec fn bits_value(bits: Seq<bool>) -> int
    decreases bits.len(),
{
    if bits.len() == 0 {
        0
    } else {
        bits_value(bits.drop_last()) + if bits.last() {
            pow2((bits.len() - 1) as nat) as int
        } else {
            0int
        }
    }
}

/// The values of a sequence of booleans, all present.
pub open spec fn known_bits(entries: Seq<Boolean>) -> Seq<bool> {
    entries.map_values(|e: Boolean| e.value->0)
}

pub open spec fn all_known(entries: Seq<Boolean>) -> bool {
    forall|i: int| 0 <= i < entries.len() ==> (#[trigger] entries[i]).value is Some
}

pub open spec fn all_absent(entries: Seq<Boolean>) -> bool {
    forall|i: int| 0 <= i < entries.len() ==> (#[trigger] entries[i]).value is None
}

/// The least `m` with `r <= 2^m`.
pub open spec fn width_of(r: nat) -> nat {
    choose|m: nat| is_width(r, m)
}

pub open spec fn is_width(r: nat, m: nat) -> bool {
    r <= pow2(m) && (m == 0 || pow2((m - 1) as nat) < r)
}

proof fn lemma_width_unique(r: nat, m: nat)
    requires
        r <= pow2(m),
        m == 0 || pow2((m - 1) as nat) < r,
    ensures
        width_of(r) == m,
{
    assert(is_width(r, m));
    let w = width_of(r);
    assert(is_width(r, w));
    if w < m {
        if w < (m - 1) as nat {
            lemma_pow2_strictly_increases(w, (m - 1) as nat);
        }
    } else if m < w {
        if m < (w - 1) as nat {
            lemma_pow2_strictly_increases(m, (w - 1) as nat);
        }
    }
}

/// The correction bit of the skewed digits of `k`: set for an even `k`.
pub open spec fn skew_correction(k: int) -> int {
    if k % 2 == 0 {
        1
    } else {
        0
    }
}

/// The `m` skewed digits of `k`, most significant first: the bits of
/// `(2^(m+1) - 1 - (k + correction)) / 2`.
pub open spec fn skew_digits(k: int, m: nat) -> Seq<bool> {
    let big_b = (pow2(m + 1) - 1 - (k + skew_correction(k))) / 2;
    Seq::new(m, |j: int| (big_b / pow2((m - 1 - j) as nat) as int) % 2 == 1)
}

/// The least `m` with `r <= 2^m`, and `2^m`.
pub fn bit_length(r: u64) -> (res: (u64, u64))
    requires
        1 <= r <= 0xffff_ffff,
    ensures
        res.0 <= 32,
        res.1 == pow2(res.0 as nat),
        r <= pow2(res.0 as nat),
        res.0 == 0 || pow2((res.0 - 1) as nat) < r,
        res.0 == width_of(r as nat),
{
    let mut m: u64 = 0;
    let mut pw: u64 = 1;
    proof {
        lemma2_to64();
    }
    while pw < r
        invariant
            1 <= r <= 0xffff_ffff,
            m <= 32,
            pw == pow2(m as nat),
            m == 0 || pow2((m - 1) as nat) < r,
        decreases 0x1_0000_0000 - pw,
    {
        proof {
            lemma_pow2_unfold((m + 1) as nat);
            lemma2_to64();
            if m >= 32 {
                lemma_pow2_strictly_increases(32, m as nat);
            }
        }
        pw = pw * 2;
        m = m + 1;
    }
    proof {
        lemma_width_unique(r as nat, m as nat);
    }
    (m, pw)
}

/// The middle digits of a skewed decomposition.
pub open spec fn middle_bits(r: Seq<Boolean>) -> Seq<bool> {
    known_bits(r.subrange(1, r.len() - 1))
}

/// The correction bit of a skewed decomposition, as a number.
pub open spec fn correction(r: Seq<Boolean>) -> int {
    if r.last().value->0 {
        1
    } else {
        0
    }
}

/// The bits of `big_b < 2^m`, most significant first, as skewed digits:
/// their value is `2^(m+1) - 1 - 2 * big_b`.
fn skewed_bits(big_b: u64, m: u64, pw_m: u64) -> (bits: Vec<bool>)
    requires
        m <= 32,
        pw_m == pow2(m as nat),
        big_b < pw_m,
    ensures
        bits@.len() == m,
        skew_value(bits@) == pow2((m + 1) as nat) - 1 - 2 * big_b,
        forall|t: int| 0 <= t < m ==> #[trigger] bits@[t] == ((big_b as int / pow2((m - 1 - t) as nat) as int) % 2 == 1),
{
    let mut pw: u64 = pw_m;
    let mut j: u64 = 0;
    let mut bits: Vec<bool> = Vec::new();
    proof {
        lemma_small_mod(big_b as nat, pw as nat);
        assert(big_b / pw == 0) by {
            vstd::arithmetic::div_mod::lemma_basic_div(big_b as int, pw as int);
        }
        lemma_pow2_unfold(1);
        lemma2_to64();
        assert(pow2(1) == 2);
        assert(bits@ =~= Seq::<bool>::empty());
        assert(skew_value(bits@) == 1);
    }
    while j < m
        invariant
            m <= 32,
            j <= m,
            pw == pow2((m - j) as nat),
            big_b < pow2(m as nat),
            bits@.len() == j,
            skew_value(bits@) == pow2((j + 1) as nat) - 1 - 2 * (big_b / pw) as int,
            forall|t: int| 0 <= t < j ==> #[trigger] bits@[t] == ((big_b as int / pow2((m - 1 - t) as nat) as int) % 2 == 1),
        decreases m - j,
    {
        proof {
            lemma_pow2_unfold((m - j) as nat);
            lemma_pow2_pos((m - j - 1) as nat);
        }
        pw = pw / 2;
        let q = big_b / pw;
        let b = q % 2 == 1;
        proof {
            lemma_div_denominator(big_b as int, pw as int, 2);
            lemma_fundamental_div_mod(q as int, 2);
            lemma_pow2_unfold((j + 2) as nat);
            assert(bits@.push(b).drop_last() =~= bits@);
        }
        bits.push(b);
        j = j + 1;
    }
    proof {
        lemma2_to64();
        assert(pow2(0) == 1);
        assert(pw == 1);
        vstd::arithmetic::div_mod::lemma_div_basics(big_b as int);
        assert(big_b / pw == big_b);
    }
    bits
}

impl AffinePoint {
    /// The skewed digits of `scalar` over the width `m` of its field: a
    /// constant leading `+1`, `m` digits most significant first, and a
    /// correction bit that is set for an even scalar. They give back the
    /// scalar: `skew_value(middle digits) - correction == scalar`.
    pub fn decompose_into_skewed_representation(scalar: &FieldElement) -> (r: Vec<Boolean>)
        requires
            scalar.wf(),
        ensures
            r@.len() >= 2,
            scalar.modulus <= pow2((r@.len() - 2) as nat),
            r@.len() == 2 || pow2((r@.len() - 3) as nat) < scalar.modulus,
            r@[0].value == Some(true),
            r@.len() - 2 == width_of(scalar.modulus as nat),
            scalar.value is Some ==> all_known(r@) && skew_value(middle_bits(r@)) - correction(r@)
                == val(scalar.value),
            scalar.value is Some ==> middle_bits(r@) == skew_digits(val(scalar.value), (r@.len() - 2) as nat)
                && correction(r@) == skew_correction(val(scalar.value)),
            scalar.value is None ==> forall|i: int| 1 <= i < r@.len() ==> (#[trigger] r@[i]).value is None,
    {
        let (m, pw_m) = bit_length(scalar.modulus);
        let mut entries: Vec<Boolean> = Vec::new();
        entries.push(Boolean::constant(true));
        match scalar.value {
            None => {
                let mut j: u64 = 0;
                while j <= m
                    invariant
                        j <= m + 1,
                        m <= 32,
                        entries@.len() == j + 1,
                        entries@[0].value == Some(true),
                        forall|i: int| 1 <= i < entries@.len() ==> (#[trigger] entries@[i]).value is None,
                    decreases m + 1 - j,
                {
                    entries.push(Boolean::allocate(None));
                    j = j + 1;
                }
            },
            Some(k) => {
                proof {
                    lemma2_to64();
                    lemma_pow2_unfold((m + 1) as nat);
                }
                let s: u64 = if k % 2 == 0 {
                    1
                } else {
                    0
                };
                let top: u64 = 2 * pw_m;
                proof {
                    assert((top - 1 - (k + s)) % 2 == 0);
                    lemma_fundamental_div_mod((top - 1 - (k + s)) as int, 2);
                }
                let big_b: u64 = (top - 1 - (k + s)) / 2;
                let bits = skewed_bits(big_b, m, pw_m);
                let mut i: usize = 0;
                while i < bits.len()
                    invariant
                        i <= bits@.len(),
                        entries@.len() == i + 1,
                        entries@[0].value == Some(true),
                        all_known(entries@),
                        known_bits(entries@.subrange(1, entries@.len() as int)) =~= bits@.take(i as int),
                    decreases bits@.len() - i,
                {
                    entries.push(Boolean::allocate(Some(bits[i])));
                    proof {
                        assert(known_bits(entries@.subrange(1, entries@.len() as int)) =~= bits@.take(i + 1));
                    }
                    i = i + 1;
                }
                let ghost before = entries@;
                entries.push(Boolean::allocate(Some(s == 1)));
                proof {
                    assert(entries@.subrange(1, entries@.len() - 1) =~= before.subrange(1, before.len() as int));
                    assert(bits@.take(bits@.len() as int) =~= bits@);
                    assert(middle_bits(entries@) =~= bits@);
                    assert(bits@ =~= skew_digits(k as int, m as nat));
                }
            },
        }
        entries
    }
}

/// The accumulator of the skewed loop: from `start`, each digit doubles the
/// accumulator and adds `q`, or `-q` where the bit is set.
pub open spec fn skew_acc(q: (int, int), bits: Seq<bool>, start: (int, int), p: int) -> (int, int)
    decreases bits.len(),
{
    if bits.len() == 0 {
        start
    } else {
        let acc = skew_acc(q, bits.drop_last(), start, p);
        ec_double_and_add(acc, if bits.last() { ec_neg(q, p) } else { q }, p)
    }
}

/// The relations that the skewed loop enforces: at each digit the
/// accumulator and the added point have distinct abscissae, and both
/// divisions of the fused step hold.
pub open spec fn skew_ok(q: (int, int), bits: Seq<bool>, start: (int, int), p: int) -> bool
    decreases bits.len(),
{
    if bits.len() == 0 {
        true
    } else {
        let acc = skew_acc(q, bits.drop_last(), start, p);
        let t = if bits.last() {
            ec_neg(q, p)
        } else {
            q
        };
        skew_ok(q, bits.drop_last(), start, p) && acc.0 != t.0 && ec_double_and_add_ok(acc, t, p)
    }
}

/// The relation of the first addition, `q + offset`.
pub open spec fn composite_start_ok(q: (int, int), offset: (int, int), p: int) -> bool {
    q.0 != offset.0 && ec_add_ok(q, offset, p)
}

/// The relations enforced after the first addition: those of the loop, of the
/// correcting subtraction of `q`, and of the final subtraction of the offset.
pub open spec fn composite_rest_ok(
    q: (int, int),
    bits: Seq<bool>,
    corrected: bool,
    offset: (int, int),
    scaled_offset: (int, int),
    p: int,
) -> bool {
    let start = crate::curve::ec_add(q, offset, p);
    let acc = skew_acc(q, bits, start, p);
    let fin = if corrected {
        ec_sub(acc, q, p)
    } else {
        acc
    };
    &&& skew_ok(q, bits, start, p)
    &&& acc.0 != q.0 && ec_sub_ok(acc, q, p)
    &&& fin.0 != scaled_offset.0 && ec_sub_ok(fin, scaled_offset, p)
}

/// `offset` doubled `n` times.
pub open spec fn doubled(offset: Option<(int, int)>, n: nat, a: int, p: int) -> Option<(int, int)>
    decreases n,
{
    if n == 0 {
        offset
    } else {
        let d = doubled(offset, (n - 1) as nat, a, p);
        pt_add(d, d, a, p)
    }
}

/// What the composite-order multiplication computes from `q`, the digits of
/// the scalar, its correction bit, the offset point and the offset doubled
/// once per digit.
pub open spec fn composite_mul_result(
    q: (int, int),
    bits: Seq<bool>,
    corrected: bool,
    offset: (int, int),
    scaled_offset: (int, int),
    p: int,
) -> (int, int) {
    let acc = skew_acc(q, bits, crate::curve::ec_add(q, offset, p), p);
    let fin = if corrected {
        ec_sub(acc, q, p)
    } else {
        acc
    };
    ec_sub(fin, scaled_offset, p)
}

impl AffinePoint {
    /// The offset doubled once per digit of a scalar modulo `scalar_modulus`.
    pub open spec fn scaled_offset(params: CurveParams, scalar_modulus: u64) -> Option<(int, int)> {
        doubled(
            Some(Self::offset_of(params)),
            width_of(scalar_modulus as nat),
            params.a as int,
            params.p(),
        )
    }

    /// The offset point of the curve parameters.
    pub open spec fn offset_of(params: CurveParams) -> (int, int) {
        (params.offset_x as int, params.offset_y as int)
    }

    /// `scalar * self` for any curve: the accumulator starts at
    /// `self + offset`, every skewed digit doubles it and adds `self` or
    /// `-self`, the correction bit subtracts `self`, and the offset, doubled
    /// once per digit, is subtracted at the end. Every addition enforces that
    /// its abscissae differ. A zero or constant scalar is not supported.
    pub fn mul_by_scalar_for_composite_order_curve(&self, cs: &mut ConstraintSystem, scalar: &FieldElement) -> (r:
        Result<Self, SynthesisError>)
        requires
            self.wf(),
            scalar.wf(),
            scalar.modulus == self.circuit_params.scalar_modulus,
        ensures
            (scalar.value == Some(0u64) || scalar.is_constant) ==> r == Err::<Self, SynthesisError>(
                SynthesisError::Unsupported,
            ) && *final(cs) == *old(cs),
            !(scalar.value == Some(0u64) || scalar.is_constant) && Self::scaled_offset(
                self.circuit_params,
                scalar.modulus,
            ) is None ==> r == Err::<Self, SynthesisError>(SynthesisError::UnexpectedIdentity)
                && *final(cs) == *old(cs),
            !(scalar.value == Some(0u64) || scalar.is_constant) && Self::scaled_offset(
                self.circuit_params,
                scalar.modulus,
            ) is Some ==> (r matches Ok(res) && res.wf() && res.circuit_params == self.circuit_params
                && res@ == (if self@ is Some && scalar.value is Some {
                Some(
                    composite_mul_result(
                        self@->0,
                        skew_digits(val(scalar.value), width_of(scalar.modulus as nat)),
                        skew_correction(val(scalar.value)) == 1,
                        Self::offset_of(self.circuit_params),
                        Self::scaled_offset(self.circuit_params, scalar.modulus)->0,
                        self.p(),
                    ),
                )
            } else {
                None
            }) && *final(cs) == old(cs).enforced(
                self@ is Some ==> composite_start_ok(
                    self@->0,
                    Self::offset_of(self.circuit_params),
                    self.p(),
                ) && (scalar.value is Some ==> composite_rest_ok(
                    self@->0,
                    skew_digits(val(scalar.value), width_of(scalar.modulus as nat)),
                    skew_correction(val(scalar.value)) == 1,
                    Self::offset_of(self.circuit_params),
                    Self::scaled_offset(self.circuit_params, scalar.modulus)->0,
                    self.p(),
                )),
            )),
    {
        if let Some(value) = scalar.value {
            if value == 0 {
                return Err(SynthesisError::Unsupported);
            }
        }
        if scalar.is_constant {
            return Err(SynthesisError::Unsupported);
        }
        let ghost cs0 = *cs;
        let params = self.circuit_params;
        let entries = Self::decompose_into_skewed_representation(scalar);
        proof {
            vstd::arithmetic::power2::lemma2_to64();
        }
        let n = entries.len();
        let ghost m = (n - 2) as nat;
        let ghost p = self.p();
        let offset_point = CurvePoint::Affine { x: params.offset_x, y: params.offset_y };
        // the offset doubled once per digit
        let mut scaled_offset = offset_point;
        let mut j: usize = 0;
        while j < n - 2
            invariant
                params.wf(),
                j <= n - 2,
                scaled_offset.wf(params),
                scaled_offset@ == doubled(Some(Self::offset_of(params)), j as nat, params.a as int, params.p()),
            decreases n - 2 - j,
        {
            scaled_offset = scaled_offset.add(&scaled_offset, &params);
            j = j + 1;
        }
        if scaled_offset.is_zero() {
            return Err(SynthesisError::UnexpectedIdentity);
        }
        let generator = Self::constant(offset_point, &params);
        let mut acc = self.add_unequal(cs, &generator);
        let minus_y = self.y.negate();
        let ghost bits = middle_bits(entries@);
        let ghost q = self@->0;
        let ghost start = crate::curve::ec_add(q, Self::offset_of(params), p);
        let ghost start_ok = self@ is Some ==> composite_start_ok(q, Self::offset_of(params), p);
        let mut i: usize = 1;
        while i < n - 1
            invariant
                self.wf(),
                params == self.circuit_params,
                p == self.p(),
                1 <= i <= n - 1,
                n == entries@.len(),
                n >= 2,
                bits == middle_bits(entries@),
                bits.len() == n - 2,
                minus_y.wf(),
                minus_y.modulus == params.modulus,
                minus_y.value == crate::gadget::known1(self.y.value, crate::field::fneg(val(self.y.value), p)),
                scalar.value is Some ==> all_known(entries@),
                scalar.value is None ==> forall|t: int| 1 <= t < entries@.len() ==> (#[trigger] entries@[t]).value is None,
                q == self@->0,
                start == crate::curve::ec_add(q, Self::offset_of(params), p),
                start_ok == (self@ is Some ==> composite_start_ok(q, Self::offset_of(params), p)),
                acc.wf(),
                acc.circuit_params == params,
                self@ is Some && scalar.value is Some ==> acc@ == Some(skew_acc(q, bits.take(i - 1), start, p)),
                self@ is None ==> acc@ is None,
                scalar.value is None && i > 1 ==> acc@ is None,
                *cs == cs0.enforced(start_ok && (self@ is Some && scalar.value is Some ==> skew_ok(q, bits.take(i - 1), start, p))),
            decreases n - 1 - i,
        {
            let e = entries[i];
            let selected_x = FieldElement::conditionally_select(&e, &self.x, &self.x);
            let selected_y = FieldElement::conditionally_select(&e, &minus_y, &self.y);
            let t = AffinePoint { x: selected_x, y: selected_y, is_in_subgroup: self.is_in_subgroup, circuit_params: params };
            proof {
                if self@ is Some && scalar.value is Some {
                    assert(bits.take(i as int).drop_last() =~= bits.take(i - 1));
                    assert(bits.take(i as int).last() == bits[i - 1]);
                    assert(bits[i - 1] == e.value->0);
                }
            }
            acc = acc.double_and_add(cs, &t);
            i = i + 1;
        }
        let with_skew = acc.sub_unequal(cs, self);
        let last_entry = entries[n - 1];
        let final_acc = Self::select(&last_entry, &with_skew, &acc);
        let offset = Self::constant(scaled_offset, &params);
        let result = final_acc.sub_unequal(cs, &offset);
        proof {
            assert(bits.take(bits.len() as int) =~= bits);
        }
        Ok(result)
    }
}

} // verus!
