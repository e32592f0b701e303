//! The substitution box of an algebraic permutation: each state element is
//! raised to the fifth power, or to the inverse of that power.
use crate::field::{
    fmul, fpow, lemma_fpow_mul, limbs_value, modulus_ok, mul_mod, pow_limbs_mod, pow_mod,
};
use crate::gadget::{known1, val, ConstraintSystem, FieldElement, SynthesisError};
use vstd::arithmetic::div_mod::lemma_small_mod;
use vstd::arithmetic::power::lemma_pow1;
use vstd::prelude::*;

verus! {

/// Which custom gate computes a fifth power, if any.
#[derive(Clone, Copy, Debug, PartialEq, Eq, Structural)]
pub enum CustomGate {
    Disabled,
    QuinticWidth4,
    QuinticWidth3,
}

/// One step of an addition chain: the square of an earlier result, or the
/// product of two earlier results. Result 0 is the base itself.
#[derive(Clone, Copy, Debug, PartialEq, Eq, Structural)]
pub enum Step {
    Double { index: usize },
    Add { left: usize, right: usize },
}

/// The power map of the substitution box.
#[derive(Clone, Debug)]
pub enum Sbox {
    /// `x^alpha`.
    Alpha(u64),
    /// `x^(1/alpha)`, with the inverse exponent as little-endian words.
    AlphaInverse(Vec<u64>, u64),
    /// `x^(1/alpha)`, with the inverse exponent as an addition chain.
    AddChain(Vec<Step>, u64),
}

/// The supported power.
pub const ALPHA: u64 = 5;

/// The exponents that an addition chain computes, result 0 being exponent 1.
pub open spec fn chain_exps(steps: Seq<Step>) -> Seq<nat>
    decreases steps.len(),
{
    if steps.len() == 0 {
        seq![1nat]
    } else {
        let prev = chain_exps(steps.drop_last());
        prev.push(step_exp(prev, steps.last()))
    }
}

pub open spec fn step_exp(prev: Seq<nat>, s: Step) -> nat {
    match s {
        Step::Double { index } => prev[index as int] * 2,
        Step::Add { left, right } => prev[left as int] + prev[right as int],
    }
}

/// Each step refers only to results computed before it.
pub open spec fn chain_valid(steps: Seq<Step>) -> bool {
    forall|i: int|
        0 <= i < steps.len() ==> match #[trigger] steps[i] {
            Step::Double { index } => index <= i,
            Step::Add { left, right } => left <= i && right <= i,
        }
}

/// The exponent of the last result of a chain.
pub open spec fn chain_exp(steps: Seq<Step>) -> nat {
    chain_exps(steps).last()
}

/// The element raised to `exp`, keeping its modulus and whether it is constant.
pub open spec fn powered(e: FieldElement, exp: nat) -> FieldElement {
    FieldElement { value: known1(e.value, fpow(val(e.value), exp, e.p())), ..e }
}

/// `new` is `old` with the elements in `[start, end)` raised to `exp`.
pub open spec fn powered_range(
    old: Seq<FieldElement>,
    new: Seq<FieldElement>,
    start: int,
    end: int,
    exp: nat,
) -> bool {
    &&& new.len() == old.len()
    &&& forall|i: int|
        0 <= i < old.len() ==> #[trigger] new[i] == if start <= i < end {
            powered(old[i], exp)
        } else {
            old[i]
        }
}

/// For every variable of `old` with a value `v`, `(v^exp)^5 == v`.
pub open spec fn roots_hold(old: Seq<FieldElement>, exp: nat) -> bool {
    forall|i: int|
        0 <= i < old.len() && !old[i].is_constant && old[i].value is Some ==> fpow(
            fpow(val(#[trigger] old[i].value), exp, old[i].p()),
            5,
            old[i].p(),
        ) == val(old[i].value)
}

pub open spec fn state_wf(s: Seq<FieldElement>) -> bool {
    forall|i: int| 0 <= i < s.len() ==> (#[trigger] s[i]).wf()
}

/// What a custom gate needs of the constraint system.
pub open spec fn custom_gate_ok(cs: ConstraintSystem, g: CustomGate) -> bool {
    match g {
        CustomGate::Disabled => false,
        CustomGate::QuinticWidth4 => cs.has_custom_gates && cs.state_width >= 4,
        CustomGate::QuinticWidth3 => cs.has_custom_gates && cs.state_width >= 3,
    }
}

proof fn lemma_fifth(w: int, p: int)
    requires
        p > 0,
        0 <= w < p,
    ensures
        fmul(fmul(fmul(w, w, p), fmul(w, w, p), p), w, p) == fpow(w, 5, p),
{
    lemma_pow1(w);
    lemma_small_mod(w as nat, p as nat);
    lemma_fpow_mul(w, 1, 1, p);
    lemma_fpow_mul(w, 2, 2, p);
    lemma_fpow_mul(w, 4, 1, p);
}

proof fn lemma_roots_hold_push(s: Seq<FieldElement>, i: int, exp: nat)
    requires
        0 <= i < s.len(),
    ensures
        roots_hold(s.take(i + 1), exp) == (roots_hold(s.take(i), exp) && (!s[i].is_constant
            && s[i].value is Some ==> fpow(fpow(val(s[i].value), exp, s[i].p()), 5, s[i].p())
            == val(s[i].value))),
{
    let a = s.take(i + 1);
    let b = s.take(i);
    if roots_hold(a, exp) {
        assert forall|j: int|
            0 <= j < b.len() && !b[j].is_constant && b[j].value is Some implies fpow(
                fpow(val(#[trigger] b[j].value), exp, b[j].p()),
                5,
                b[j].p(),
            ) == val(b[j].value) by {
            assert(a[j] == b[j]);
        }
        assert(a[i] == s[i]);
    }
    if roots_hold(b, exp) && (!s[i].is_constant && s[i].value is Some ==> fpow(
        fpow(val(s[i].value), exp, s[i].p()),
        5,
        s[i].p(),
    ) == val(s[i].value)) {
        assert forall|j: int|
            0 <= j < a.len() && !a[j].is_constant && a[j].value is Some implies fpow(
                fpow(val(#[trigger] a[j].value), exp, a[j].p()),
                5,
                a[j].p(),
            ) == val(a[j].value) by {
            if j < i {
                assert(a[j] == b[j]);
            } else {
                assert(a[j] == s[i]);
            }
        }
    }
}

/// The fifth power of a witness, `x * x` squared times `x`.
fn fifth_power_plain(value: &FieldElement) -> (r: FieldElement)
    requires
        value.wf(),
    ensures
        r == powered(*value, 5),
{
    let square = value.square();
    let quad = square.square();
    let r = quad.mul(value);
    proof {
        if value.value is Some {
            lemma_fifth(val(value.value), value.p());
        }
    }
    r
}

/// Computes a fifth power with a custom gate: the result is `existing_5th`
/// where given, with the relation `existing_5th == value^5` enforced, else a
/// new witness that holds `value^5`.
pub fn inner_apply_5th_power(
    cs: &mut ConstraintSystem,
    value: &FieldElement,
    existing_5th: Option<FieldElement>,
    custom_gate: CustomGate,
) -> (r: Result<FieldElement, SynthesisError>)
    requires
        value.wf(),
        existing_5th matches Some(e) ==> value.compatible(&e),
        custom_gate_ok(*old(cs), custom_gate),
    ensures
        r matches Ok(f) && f == match existing_5th {
            Some(e) => e,
            None => FieldElement { is_constant: false, ..powered(*value, 5) },
        },
        *final(cs) == old(cs).enforced(
            existing_5th matches Some(e) ==> (e.value is Some && value.value is Some ==> val(
                e.value,
            ) == fpow(val(value.value), 5, value.p())),
        ),
{
    let fifth = fifth_power_plain(value);
    match existing_5th {
        Some(e) => {
            FieldElement::enforce_equal(cs, &e, &fifth);
            Ok(e)
        },
        None => Ok(FieldElement { modulus: fifth.modulus, value: fifth.value, is_constant: false }),
    }
}

/// Raises the elements of `prev_state` in `[start, end)` to the power `alpha`.
pub fn sbox_alpha(
    cs: &mut ConstraintSystem,
    alpha: &u64,
    prev_state: &mut Vec<FieldElement>,
    state_range: (usize, usize),
    custom_gate: CustomGate,
) -> (r: Result<(), SynthesisError>)
    requires
        *alpha == ALPHA,
        state_wf(old(prev_state)@),
        state_range.0 <= state_range.1 <= old(prev_state)@.len(),
    ensures
        r == Ok::<(), SynthesisError>(()) && powered_range(
            old(prev_state)@,
            final(prev_state)@,
            state_range.0 as int,
            state_range.1 as int,
            5,
        ),
        *final(cs) == *old(cs),
{
    let use_custom_gate = match custom_gate {
        CustomGate::Disabled => false,
        _ => true,
    };
    let use_custom_gate = use_custom_gate && cs.has_custom_gates && cs.state_width >= 4;
    let ghost s0 = prev_state@;
    let mut i = state_range.0;
    while i < state_range.1
        invariant
            state_wf(s0),
            state_range.0 <= i <= state_range.1 <= s0.len(),
            powered_range(s0, prev_state@, state_range.0 as int, i as int, 5),
            use_custom_gate ==> custom_gate_ok(*cs, custom_gate),
            *cs == *old(cs),
        decreases state_range.1 - i,
    {
        let lc = prev_state[i];
        let result = if lc.is_constant {
            let v = match lc.value {
                Some(v) => Some(pow_mod(v, ALPHA, lc.modulus)),
                None => None,
            };
            FieldElement { modulus: lc.modulus, value: v, is_constant: true }
        } else if use_custom_gate {
            match inner_apply_5th_power(cs, &lc, None, custom_gate) {
                Ok(f) => f,
                Err(e) => {
                    return Err(e);
                },
            }
        } else {
            fifth_power_plain(&lc)
        };
        prev_state.set(i, result);
        i = i + 1;
    }
    Ok(())
}

/// Raises every element of `prev_state` to the power `1/alpha`, given as
/// the little-endian words `alpha_inv` of its exponent. For each variable the
/// relation `result^alpha == element` is enforced.
pub fn sbox_alpha_inv(
    cs: &mut ConstraintSystem,
    alpha_inv: &[u64],
    alpha: &u64,
    prev_state: &mut Vec<FieldElement>,
    custom_gate: CustomGate,
) -> (r: Result<(), SynthesisError>)
    requires
        *alpha == ALPHA,
        state_wf(old(prev_state)@),
        custom_gate != CustomGate::Disabled ==> custom_gate_ok(*old(cs), custom_gate),
    ensures
        r == Ok::<(), SynthesisError>(()) && powered_range(
            old(prev_state)@,
            final(prev_state)@,
            0,
            old(prev_state)@.len() as int,
            limbs_value(alpha_inv@),
        ) && *final(cs) == old(cs).enforced(roots_hold(old(prev_state)@, limbs_value(alpha_inv@))),
{
    let ghost e = limbs_value(alpha_inv@);
    let ghost s0 = prev_state@;
    let ghost cs0 = *cs;
    let mut i: usize = 0;
    while i < prev_state.len()
        invariant
            state_wf(s0),
            i <= s0.len(),
            prev_state@.len() == s0.len(),
            powered_range(s0, prev_state@, 0, i as int, e),
            custom_gate != CustomGate::Disabled ==> custom_gate_ok(*cs, custom_gate),
            e == limbs_value(alpha_inv@),
            *cs == cs0.enforced(roots_hold(s0.take(i as int), e)),
        decreases s0.len() - i,
    {
        let lc = prev_state[i];
        let result = match lc.value {
            Some(v) => Some(pow_limbs_mod(v, alpha_inv, lc.modulus)),
            None => None,
        };
        let powered_el = FieldElement { modulus: lc.modulus, value: result, is_constant: lc.is_constant };
        if !lc.is_constant {
            let fifth = fifth_power_plain(&powered_el);
            FieldElement::enforce_equal(cs, &fifth, &lc);
        }
        proof {
            assert(s0.take(i + 1).drop_last() =~= s0.take(i as int));
            lemma_roots_hold_push(s0, i as int, e);
        }
        prev_state.set(i, powered_el);
        i = i + 1;
    }
    proof {
        assert(s0.take(s0.len() as int) =~= s0);
    }
    Ok(())
}

/// `base` raised by the addition chain `steps`, keeping every intermediate result.
pub fn add_chain_pow(base: u64, steps: &[Step], p: u64) -> (r: u64)
    requires
        modulus_ok(p as int),
        base < p,
        chain_valid(steps@),
    ensures
        r == fpow(base as int, chain_exp(steps@), p as int),
{
    let mut scratch: Vec<u64> = Vec::new();
    scratch.push(base);
    proof {
        lemma_pow1(base as int);
        lemma_small_mod(base as nat, p as nat);
        assert(steps@.take(0) =~= Seq::<Step>::empty());
    }
    let mut i: usize = 0;
    while i < steps.len()
        invariant
            modulus_ok(p as int),
            base < p,
            chain_valid(steps@),
            i <= steps@.len(),
            scratch@.len() == i + 1,
            chain_exps(steps@.take(i as int)).len() == i + 1,
            forall|j: int|
                0 <= j <= i ==> #[trigger] scratch@[j] == fpow(
                    base as int,
                    chain_exps(steps@.take(i as int))[j],
                    p as int,
                ) && scratch@[j] < p,
        decreases steps@.len() - i,
    {
        let ghost prev = chain_exps(steps@.take(i as int));
        let step = steps[i];
        let next = match step {
            Step::Double { index } => {
                proof {
                    lemma_fpow_mul(base as int, prev[index as int], prev[index as int], p as int);
                }
                mul_mod(scratch[index], scratch[index], p)
            },
            Step::Add { left, right } => {
                proof {
                    lemma_fpow_mul(base as int, prev[left as int], prev[right as int], p as int);
                }
                mul_mod(scratch[left], scratch[right], p)
            },
        };
        proof {
            assert(steps@.take(i + 1).drop_last() =~= steps@.take(i as int));
            assert(steps@.take(i + 1).last() == step);
        }
        scratch.push(next);
        i = i + 1;
    }
    proof {
        assert(steps@.take(steps@.len() as int) =~= steps@);
    }
    scratch[steps.len()]
}

/// Raises every element of `prev_state` to the power `1/alpha`, whose
/// exponent is computed by `addition_chain`. For each variable the relation
/// `result^alpha == element` is enforced.
pub fn sbox_alpha_inv_via_add_chain(
    cs: &mut ConstraintSystem,
    addition_chain: &[Step],
    alpha: &u64,
    prev_state: &mut Vec<FieldElement>,
    custom_gate: CustomGate,
) -> (r: Result<(), SynthesisError>)
    requires
        *alpha == ALPHA,
        state_wf(old(prev_state)@),
        chain_valid(addition_chain@),
        custom_gate != CustomGate::Disabled ==> custom_gate_ok(*old(cs), custom_gate),
    ensures
        r == Ok::<(), SynthesisError>(()) && powered_range(
            old(prev_state)@,
            final(prev_state)@,
            0,
            old(prev_state)@.len() as int,
            chain_exp(addition_chain@),
        ) && *final(cs) == old(cs).enforced(
            roots_hold(old(prev_state)@, chain_exp(addition_chain@)),
        ),
{
    let ghost e = chain_exp(addition_chain@);
    let ghost s0 = prev_state@;
    let ghost cs0 = *cs;
    let mut i: usize = 0;
    while i < prev_state.len()
        invariant
            state_wf(s0),
            chain_valid(addition_chain@),
            i <= s0.len(),
            prev_state@.len() == s0.len(),
            powered_range(s0, prev_state@, 0, i as int, e),
            custom_gate != CustomGate::Disabled ==> custom_gate_ok(*cs, custom_gate),
            e == chain_exp(addition_chain@),
            *cs == cs0.enforced(roots_hold(s0.take(i as int), e)),
        decreases s0.len() - i,
    {
        let lc = prev_state[i];
        let result = match lc.value {
            Some(v) => Some(add_chain_pow(v, addition_chain, lc.modulus)),
            None => None,
        };
        let powered_el = FieldElement { modulus: lc.modulus, value: result, is_constant: lc.is_constant };
        if !lc.is_constant {
            if custom_gate != CustomGate::Disabled {
                let _ = inner_apply_5th_power(cs, &powered_el, Some(lc), custom_gate);
            } else {
                let fifth = fifth_power_plain(&powered_el);
                FieldElement::enforce_equal(cs, &fifth, &lc);
            }
        }
        proof {
            assert(s0.take(i + 1).drop_last() =~= s0.take(i as int));
            lemma_roots_hold_push(s0, i as int, e);
        }
        prev_state.set(i, powered_el);
        i = i + 1;
    }
    proof {
        assert(s0.take(s0.len() as int) =~= s0);
    }
    Ok(())
}

/// Applies the substitution box `power` to `prev_state`: to the elements in
/// `use_partial_state` where given, else to all of them, for `x^alpha`; to all
/// of them for the inverse maps.
pub fn sbox(
    cs: &mut ConstraintSystem,
    power: &Sbox,
    prev_state: &mut Vec<FieldElement>,
    use_partial_state: Option<(usize, usize)>,
    custom_gate: CustomGate,
) -> (r: Result<(), SynthesisError>)
    requires
        state_wf(old(prev_state)@),
        use_partial_state matches Some(rg) ==> rg.0 <= rg.1 <= old(prev_state)@.len(),
        power matches Sbox::AddChain(chain, _) ==> chain_valid(chain@),
        match *power {
            Sbox::Alpha(alpha) => alpha == ALPHA,
            Sbox::AlphaInverse(_, alpha) => alpha == ALPHA,
            Sbox::AddChain(_, alpha) => alpha == ALPHA,
        },
        !(power is Alpha) && custom_gate != CustomGate::Disabled ==> custom_gate_ok(*old(cs), custom_gate),
    ensures
        match *power {
            Sbox::Alpha(alpha) => {
                let rg: (int, int) = match use_partial_state {
                    Some(rg) => (rg.0 as int, rg.1 as int),
                    None => (0, old(prev_state)@.len() as int),
                };
                &&& r == Ok::<(), SynthesisError>(()) && powered_range(
                    old(prev_state)@,
                    final(prev_state)@,
                    rg.0,
                    rg.1,
                    5,
                )
                &&& *final(cs) == *old(cs)
            },
            Sbox::AlphaInverse(alpha_inv, alpha) => {
                &&& r == Ok::<(), SynthesisError>(()) && powered_range(
                    old(prev_state)@,
                    final(prev_state)@,
                    0,
                    old(prev_state)@.len() as int,
                    limbs_value(alpha_inv@),
                ) && *final(cs) == old(cs).enforced(
                    roots_hold(old(prev_state)@, limbs_value(alpha_inv@)),
                )
            },
            Sbox::AddChain(chain, alpha) => {
                &&& r == Ok::<(), SynthesisError>(()) && powered_range(
                    old(prev_state)@,
                    final(prev_state)@,
                    0,
                    old(prev_state)@.len() as int,
                    chain_exp(chain@),
                ) && *final(cs) == old(cs).enforced(roots_hold(old(prev_state)@, chain_exp(chain@)))
            },
        },
{
    let state_range = match use_partial_state {
        Some(partial_range) => partial_range,
        None => (0, prev_state.len()),
    };
    match power {
        Sbox::Alpha(alpha) => sbox_alpha(cs, alpha, prev_state, state_range, custom_gate),
        Sbox::AlphaInverse(alpha_inv, alpha) => sbox_alpha_inv(
            cs,
            alpha_inv.as_slice(),
            alpha,
            prev_state,
            custom_gate,
        ),
        Sbox::AddChain(chain, alpha) => sbox_alpha_inv_via_add_chain(
            cs,
            chain.as_slice(),
            alpha,
            prev_state,
            custom_gate,
        ),
    }
}

} // verus!
