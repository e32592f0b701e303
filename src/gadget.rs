//! The constraint system and the field-element gadget.
//!
//! A value may be absent (when only the shape of the constraints is wanted);
//! every operation propagates absence and never invents a value.
use crate::field::{add_mod, fadd, fdiv, fmul, fneg, fsub, inv_mod, modulus_ok, mul_mod, neg_mod, sub_mod};
use vstd::prelude::*;

verus! {

/// Why building a circuit failed.
#[derive(Clone, Copy, Debug, PartialEq, Eq, Structural)]
pub enum SynthesisError {
    /// An enforced relation cannot hold for the given inputs.
    Unsatisfiable,
    /// An input that the algorithm does not support, such as a zero or constant scalar.
    Unsupported,
    /// The identity was given where a point is needed.
    UnexpectedIdentity,
}

/// Records whether every relation enforced so far holds on the witness.
#[derive(Clone, Copy, Debug)]
pub struct ConstraintSystem {
    pub satisfied: bool,
    pub has_custom_gates: bool,
    pub state_width: usize,
}

impl ConstraintSystem {
    /// The system after one more relation, which holds or not.
    pub open spec fn enforced(self, holds: bool) -> ConstraintSystem {
        ConstraintSystem { satisfied: self.satisfied && holds, ..self }
    }

    pub fn new(has_custom_gates: bool, state_width: usize) -> (r: Self)
        ensures
            r.satisfied,
            r.has_custom_gates == has_custom_gates,
            r.state_width == state_width,
    {
        ConstraintSystem { satisfied: true, has_custom_gates, state_width }
    }

    pub fn is_satisfied(&self) -> (r: bool)
        ensures
            r == self.satisfied,
    {
        self.satisfied
    }

    /// Records a relation; `None` where the witness is absent.
    pub fn enforce(&mut self, holds: Option<bool>)
        ensures
            *final(self) == old(self).enforced(holds != Some(false)),
    {
        if let Some(false) = holds {
            self.satisfied = false;
        }
    }
}

/// A boolean that may be a constant, a witness, or absent.
#[derive(Clone, Copy, Debug)]
pub struct Boolean {
    pub value: Option<bool>,
    pub is_constant: bool,
}

impl Boolean {
    pub fn constant(b: bool) -> (r: Self)
        ensures
            r.value == Some(b),
            r.is_constant,
    {
        Boolean { value: Some(b), is_constant: true }
    }

    pub fn allocate(witness: Option<bool>) -> (r: Self)
        ensures
            r.value == witness,
            !r.is_constant,
    {
        Boolean { value: witness, is_constant: false }
    }

    pub fn get_value(&self) -> (r: Option<bool>)
        ensures
            r == self.value,
    {
        self.value
    }
}

/// An element of the field with modulus `modulus`, whose value may be absent.
#[derive(Clone, Copy, Debug)]
pub struct FieldElement {
    pub modulus: u64,
    pub value: Option<u64>,
    pub is_constant: bool,
}

pub open spec fn val(o: Option<u64>) -> int {
    o->0 as int
}

/// `Some(f)` where both values are present.
pub open spec fn known2(a: Option<u64>, b: Option<u64>, f: int) -> Option<u64> {
    if a is Some && b is Some {
        Some(f as u64)
    } else {
        None
    }
}

/// `Some(f)` where the value is present.
pub open spec fn known1(a: Option<u64>, f: int) -> Option<u64> {
    if a is Some {
        Some(f as u64)
    } else {
        None
    }
}

/// Whether `holds` is false on a witness where all three values are present.
pub open spec fn holds3(a: Option<u64>, b: Option<u64>, c: Option<u64>, holds: bool) -> bool {
    (a is Some && b is Some && c is Some) ==> holds
}

impl FieldElement {
    pub open spec fn wf(&self) -> bool {
        &&& modulus_ok(self.modulus as int)
        &&& self.value matches Some(v) ==> v < self.modulus
    }

    pub open spec fn compatible(&self, o: &Self) -> bool {
        self.wf() && o.wf() && self.modulus == o.modulus
    }

    pub open spec fn p(&self) -> int {
        self.modulus as int
    }

    pub fn constant(v: u64, modulus: u64) -> (r: Self)
        requires
            modulus_ok(modulus as int),
            v < modulus,
        ensures
            r.wf(),
            r.modulus == modulus,
            r.value == Some(v),
            r.is_constant,
    {
        FieldElement { modulus, value: Some(v), is_constant: true }
    }

    pub fn allocate(witness: Option<u64>, modulus: u64) -> (r: Self)
        requires
            modulus_ok(modulus as int),
            witness matches Some(v) ==> v < modulus,
        ensures
            r.wf(),
            r.modulus == modulus,
            r.value == witness,
            !r.is_constant,
    {
        FieldElement { modulus, value: witness, is_constant: false }
    }

    pub fn get_field_value(&self) -> (r: Option<u64>)
        ensures
            r == self.value,
    {
        self.value
    }

    pub fn is_constant(&self) -> (r: bool)
        ensures
            r == self.is_constant,
    {
        self.is_constant
    }

    pub fn add(&self, o: &Self) -> (r: Self)
        requires
            self.compatible(o),
        ensures
            r.wf(),
            r.modulus == self.modulus,
            r.is_constant == (self.is_constant && o.is_constant),
            r.value == known2(self.value, o.value, fadd(val(self.value), val(o.value), self.p())),
    {
        let value = match (self.value, o.value) {
            (Some(a), Some(b)) => Some(add_mod(a, b, self.modulus)),
            _ => None,
        };
        FieldElement { modulus: self.modulus, value, is_constant: self.is_constant && o.is_constant }
    }

    pub fn sub(&self, o: &Self) -> (r: Self)
        requires
            self.compatible(o),
        ensures
            r.wf(),
            r.modulus == self.modulus,
            r.is_constant == (self.is_constant && o.is_constant),
            r.value == known2(self.value, o.value, fsub(val(self.value), val(o.value), self.p())),
    {
        let value = match (self.value, o.value) {
            (Some(a), Some(b)) => Some(sub_mod(a, b, self.modulus)),
            _ => None,
        };
        FieldElement { modulus: self.modulus, value, is_constant: self.is_constant && o.is_constant }
    }

    pub fn mul(&self, o: &Self) -> (r: Self)
        requires
            self.compatible(o),
        ensures
            r.wf(),
            r.modulus == self.modulus,
            r.is_constant == (self.is_constant && o.is_constant),
            r.value == known2(self.value, o.value, fmul(val(self.value), val(o.value), self.p())),
    {
        let value = match (self.value, o.value) {
            (Some(a), Some(b)) => Some(mul_mod(a, b, self.modulus)),
            _ => None,
        };
        FieldElement { modulus: self.modulus, value, is_constant: self.is_constant && o.is_constant }
    }

    pub fn square(&self) -> (r: Self)
        requires
            self.wf(),
        ensures
            r.wf(),
            r.modulus == self.modulus,
            r.is_constant == self.is_constant,
            r.value == known1(self.value, fmul(val(self.value), val(self.value), self.p())),
    {
        self.mul(self)
    }

    pub fn double(&self) -> (r: Self)
        requires
            self.wf(),
        ensures
            r.wf(),
            r.modulus == self.modulus,
            r.is_constant == self.is_constant,
            r.value == known1(self.value, fadd(val(self.value), val(self.value), self.p())),
    {
        self.add(self)
    }

    pub fn negate(&self) -> (r: Self)
        requires
            self.wf(),
        ensures
            r.wf(),
            r.modulus == self.modulus,
            r.is_constant == self.is_constant,
            r.value == known1(self.value, fneg(val(self.value), self.p())),
    {
        let value = match self.value {
            Some(a) => Some(neg_mod(a, self.modulus)),
            None => None,
        };
        FieldElement { modulus: self.modulus, value, is_constant: self.is_constant }
    }

    /// `num / den`, allocated as a witness `w` with the relation `w * den == num` enforced.
    pub fn div(cs: &mut ConstraintSystem, num: &Self, den: &Self) -> (r: Self)
        requires
            num.compatible(den),
        ensures
            r.wf(),
            r.modulus == num.modulus,
            !r.is_constant,
            r.value == known2(num.value, den.value, fdiv(val(num.value), val(den.value), num.p())),
            *final(cs) == old(cs).enforced(
                holds3(
                    num.value,
                    den.value,
                    den.value,
                    fmul(fdiv(val(num.value), val(den.value), num.p()), val(den.value), num.p())
                        == val(num.value),
                ),
            ),
    {
        let p = num.modulus;
        let value = match (num.value, den.value) {
            (Some(n), Some(d)) => {
                let inv = match inv_mod(d, p) {
                    Some(v) => v,
                    None => 0,
                };
                Some(mul_mod(n, inv, p))
            },
            _ => None,
        };
        let holds = match (value, num.value, den.value) {
            (Some(w), Some(n), Some(d)) => Some(mul_mod(w, d, p) == n),
            _ => None,
        };
        cs.enforce(holds);
        FieldElement { modulus: p, value, is_constant: false }
    }

    /// `first` where `flag` is set, else `second`.
    pub fn conditionally_select(flag: &Boolean, first: &Self, second: &Self) -> (r: Self)
        requires
            first.compatible(second),
        ensures
            r.wf(),
            r.modulus == first.modulus,
            r.value == match flag.value {
                Some(true) => first.value,
                Some(false) => second.value,
                None => None,
            },
    {
        let value = match flag.value {
            Some(true) => first.value,
            Some(false) => second.value,
            None => None,
        };
        FieldElement {
            modulus: first.modulus,
            value,
            is_constant: flag.is_constant && first.is_constant && second.is_constant,
        }
    }

    /// The negation where `flag` is set, else the element itself.
    pub fn conditionally_negate(&self, flag: &Boolean) -> (r: Self)
        requires
            self.wf(),
        ensures
            r.wf(),
            r.modulus == self.modulus,
            r.value == match flag.value {
                Some(true) => known1(self.value, fneg(val(self.value), self.p())),
                Some(false) => self.value,
                None => None,
            },
    {
        let negated = self.negate();
        Self::conditionally_select(flag, &negated, self)
    }

    /// Enforces that the two elements are equal.
    pub fn enforce_equal(cs: &mut ConstraintSystem, a: &Self, b: &Self)
        requires
            a.compatible(b),
        ensures
            *final(cs) == old(cs).enforced(holds3(a.value, b.value, b.value, a.value == b.value)),
    {
        let holds = match (a.value, b.value) {
            (Some(x), Some(y)) => Some(x == y),
            _ => None,
        };
        cs.enforce(holds);
    }

    /// Enforces that the two elements differ.
    pub fn enforce_not_equal(cs: &mut ConstraintSystem, a: &Self, b: &Self)
        requires
            a.compatible(b),
        ensures
            *final(cs) == old(cs).enforced(holds3(a.value, b.value, b.value, a.value != b.value)),
    {
        let holds = match (a.value, b.value) {
            (Some(x), Some(y)) => Some(x != y),
            _ => None,
        };
        cs.enforce(holds);
    }

    /// Whether the two elements are equal, as a witness.
    pub fn equals(a: &Self, b: &Self) -> (r: Boolean)
        requires
            a.compatible(b),
        ensures
            r.value == match (a.value, b.value) {
                (Some(x), Some(y)) => Some(x == y),
                _ => None,
            },
    {
        let value = match (a.value, b.value) {
            (Some(x), Some(y)) => Some(x == y),
            _ => None,
        };
        Boolean { value, is_constant: a.is_constant && b.is_constant }
    }
}

} // verus!
