//! Cell contents: a known field element, a value left unknown (as in a run
//! without witnesses), or nothing written at all.

use crate::field::{modulus, Fe};
use vstd::prelude::*;

verus! {

/// What a cell or an evaluated expression stands for, in the integers
/// modulo the field order.
pub enum Resolved {
    Known(nat),
    Unknown,
    Missing,
}

pub open spec fn known_zero(a: Resolved) -> bool {
    a == Resolved::Known(0)
}

/// Sum: a missing operand wins over an unknown one.
pub open spec fn add_resolved(a: Resolved, b: Resolved) -> Resolved {
    match (a, b) {
        (Resolved::Missing, _) | (_, Resolved::Missing) => Resolved::Missing,
        (Resolved::Unknown, _) | (_, Resolved::Unknown) => Resolved::Unknown,
        (Resolved::Known(x), Resolved::Known(y)) => Resolved::Known((x + y) % modulus()),
    }
}

/// Product: a known zero on either side makes the product zero, whatever
/// stands on the other side.
pub open spec fn mul_resolved(a: Resolved, b: Resolved) -> Resolved {
    if known_zero(a) || known_zero(b) {
        Resolved::Known(0)
    } else {
        match (a, b) {
            (Resolved::Missing, _) | (_, Resolved::Missing) => Resolved::Missing,
            (Resolved::Unknown, _) | (_, Resolved::Unknown) => Resolved::Unknown,
            (Resolved::Known(x), Resolved::Known(y)) => Resolved::Known((x * y) % modulus()),
        }
    }
}

pub open spec fn neg_resolved(a: Resolved) -> Resolved {
    match a {
        Resolved::Known(x) => Resolved::Known(((modulus() - x) % modulus() as int) as nat),
        other => other,
    }
}

/// The sum of two values that may be unknown.
pub open spec fn sum_of(a: Option<nat>, b: Option<nat>) -> Option<nat> {
    match (a, b) {
        (Some(x), Some(y)) => Some((x + y) % modulus()),
        _ => None,
    }
}

/// A reduced value plus its negation is zero.
pub proof fn lemma_add_neg_zero(x: nat)
    requires
        x < modulus(),
    ensures
        add_resolved(Resolved::Known(x), neg_resolved(Resolved::Known(x))) == Resolved::Known(0),
{
    let p = modulus() as int;
    if x == 0 {
        vstd::arithmetic::div_mod::lemma_mod_self_0(p);
    } else {
        vstd::arithmetic::div_mod::lemma_small_mod((p - x) as nat, p as nat);
        vstd::arithmetic::div_mod::lemma_mod_self_0(p);
    }
}

/// A reduced value plus the negation of another is zero exactly when the
/// two are equal.
pub proof fn lemma_add_neg(s: nat, x: nat)
    requires
        s < modulus(),
        x < modulus(),
    ensures
        (add_resolved(Resolved::Known(s), neg_resolved(Resolved::Known(x))) == Resolved::Known(0)) <==> s == x,
{
    let p = modulus() as int;
    if s == x {
        lemma_add_neg_zero(x);
    } else if x == 0 {
        vstd::arithmetic::div_mod::lemma_mod_self_0(p);
        vstd::arithmetic::div_mod::lemma_small_mod(s, p as nat);
    } else {
        vstd::arithmetic::div_mod::lemma_small_mod((p - x) as nat, p as nat);
        if s > x {
            vstd::arithmetic::div_mod::lemma_mod_multiples_vanish(1, s - x, p);
            vstd::arithmetic::div_mod::lemma_small_mod((s - x) as nat, p as nat);
            assert(s + (p - x) == p * 1 + (s - x));
        } else {
            vstd::arithmetic::div_mod::lemma_small_mod((s + p - x) as nat, p as nat);
        }
    }
}

/// A value handed to the layouter: known, or unknown in a run without
/// witnesses. Arithmetic on it keeps unknown-ness.
#[derive(Clone, Copy, Debug, PartialEq, Eq)]
pub enum Value {
    Known(Fe),
    Unknown,
}

impl View for Value {
    type V = Option<nat>;

    open spec fn view(&self) -> Option<nat> {
        match self {
            Value::Known(f) => Some(f@),
            Value::Unknown => None,
        }
    }
}

impl Value {
    pub fn known(f: Fe) -> (r: Value)
        ensures
            r == Value::Known(f),
    {
        Value::Known(f)
    }

    pub fn unknown() -> (r: Value)
        ensures
            r == Value::Unknown,
    {
        Value::Unknown
    }

    pub fn add(&self, o: &Value) -> (r: Value)
        ensures
            r@ == sum_of(self@, o@),
    {
        match (self, o) {
            (Value::Known(x), Value::Known(y)) => Value::Known(x.add(y)),
            _ => Value::Unknown,
        }
    }

    pub fn mul(&self, o: &Value) -> (r: Value)
        ensures
            r@ == (match (self@, o@) {
                (Some(x), Some(y)) => Some((x * y) % modulus()),
                _ => None,
            }),
    {
        match (self, o) {
            (Value::Known(x), Value::Known(y)) => Value::Known(x.mul(y)),
            _ => Value::Unknown,
        }
    }

    /// The inverse of a known value, zero for zero.
    pub fn invert(&self) -> (r: Value)
        ensures
            self@ is None ==> r@ is None,
            self@ == Some(0nat) ==> r@ == Some(0nat),
            forall|x: nat|
                self@ == Some(x) && x != 0 ==> (r@ matches Some(y) && (x * y) % modulus() == 1),
    {
        match self {
            Value::Known(x) => Value::Known(x.invert()),
            Value::Unknown => Value::Unknown,
        }
    }
}

/// The contents of a table cell.
#[derive(Clone, Copy, Debug, PartialEq, Eq)]
pub enum CellValue {
    Unassigned,
    Unknown,
    Known(Fe),
}

impl View for CellValue {
    type V = Resolved;

    open spec fn view(&self) -> Resolved {
        match self {
            CellValue::Unassigned => Resolved::Missing,
            CellValue::Unknown => Resolved::Unknown,
            CellValue::Known(f) => Resolved::Known(f@),
        }
    }
}

impl CellValue {
    /// What writing `v` into a cell leaves there.
    pub fn from_value(v: Value) -> (r: CellValue)
        ensures
            r@ == (match v@ {
                Some(x) => Resolved::Known(x),
                None => Resolved::Unknown,
            }),
    {
        match v {
            Value::Known(f) => CellValue::Known(f),
            Value::Unknown => CellValue::Unknown,
        }
    }

    pub fn add(&self, o: &CellValue) -> (r: CellValue)
        ensures
            r@ == add_resolved(self@, o@),
    {
        match (self, o) {
            (CellValue::Unassigned, _) | (_, CellValue::Unassigned) => CellValue::Unassigned,
            (CellValue::Unknown, _) | (_, CellValue::Unknown) => CellValue::Unknown,
            (CellValue::Known(x), CellValue::Known(y)) => CellValue::Known(x.add(y)),
        }
    }

    pub fn is_known_zero(&self) -> (r: bool)
        ensures
            r == known_zero(self@),
    {
        match self {
            CellValue::Known(x) => x.is_zero(),
            _ => false,
        }
    }

    pub fn mul(&self, o: &CellValue) -> (r: CellValue)
        ensures
            r@ == mul_resolved(self@, o@),
    {
        if self.is_known_zero() || o.is_known_zero() {
            CellValue::Known(Fe::zero())
        } else {
            match (self, o) {
                (CellValue::Unassigned, _) | (_, CellValue::Unassigned) => CellValue::Unassigned,
                (CellValue::Unknown, _) | (_, CellValue::Unknown) => CellValue::Unknown,
                (CellValue::Known(x), CellValue::Known(y)) => CellValue::Known(x.mul(y)),
            }
        }
    }

    pub fn neg(&self) -> (r: CellValue)
        ensures
            r@ == neg_resolved(self@),
    {
        match self {
            CellValue::Known(x) => CellValue::Known(x.neg()),
            CellValue::Unknown => CellValue::Unknown,
            CellValue::Unassigned => CellValue::Unassigned,
        }
    }
}

} // verus!
