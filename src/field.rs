//! Elements of the Pallas base field, held as their canonical little-endian
//! encoding. Arithmetic is carried out by `pasta_curves`.

use ff::{Field, PrimeField};
use pasta_curves::pallas;
use vstd::prelude::*;

verus! {

/// The order of the Pallas base field.
pub open spec fn modulus() -> nat {
    0x40000000000000000000000000000000224698fc094cf91b992d30ed00000001nat
}

/// The integer that a little-endian byte string encodes.
pub open spec fn le_value(s: Seq<u8>) -> nat
    decreases s.len(),
{
    if s.len() == 0 {
        0
    } else {
        s[0] as nat + 256 * le_value(s.drop_first())
    }
}

/// A field element: the canonical encoding of an integer below the modulus.
#[derive(Clone, Copy, Debug, PartialEq, Eq)]
pub struct Fe {
    bytes: [u8; 32],
}

impl View for Fe {
    type V = nat;

    closed spec fn view(&self) -> nat {
        le_value(self.bytes@) % modulus()
    }
}

impl Fe {
    #[verifier::type_invariant]
    spec fn canonical(&self) -> bool {
        le_value(self.bytes@) < modulus()
    }

    /// Every element is reduced.
    pub proof fn lemma_reduced(self)
        ensures
            self@ < modulus(),
    {
    }

    /// The element that stands for the integer `n`.
    pub fn from_u64(n: u64) -> (r: Fe)
        ensures
            r@ == n as nat,
    {
        fe_from_u64(n)
    }

    pub fn zero() -> (r: Fe)
        ensures
            r@ == 0,
    {
        fe_from_u64(0)
    }

    pub fn one() -> (r: Fe)
        ensures
            r@ == 1,
    {
        fe_from_u64(1)
    }

    pub fn add(&self, o: &Fe) -> (r: Fe)
        ensures
            r@ == (self@ + o@) % modulus(),
    {
        fe_add(self, o)
    }

    pub fn mul(&self, o: &Fe) -> (r: Fe)
        ensures
            r@ == (self@ * o@) % modulus(),
    {
        fe_mul(self, o)
    }

    pub fn neg(&self) -> (r: Fe)
        ensures
            r@ == (modulus() - self@) % modulus() as int,
    {
        fe_neg(self)
    }

    pub fn sub(&self, o: &Fe) -> (r: Fe)
        ensures
            r@ == (self@ + modulus() - o@) % modulus() as int,
    {
        proof {
            use_type_invariant(self);
            use_type_invariant(o);
        }
        let n = fe_neg(o);
        let r = fe_add(self, &n);
        proof {
            let p = modulus() as int;
            let m = (p - o@) % p;
            vstd::arithmetic::div_mod::lemma_add_mod_noop(self@ as int, p - o@, p);
            vstd::arithmetic::div_mod::lemma_mod_twice(p - o@, p);
            assert((self@ as int + m) % p == (self@ as int % p + m % p) % p) by {
                vstd::arithmetic::div_mod::lemma_add_mod_noop(self@ as int, m, p);
            }
            vstd::arithmetic::div_mod::lemma_small_mod(self@, p as nat);
        }
        r
    }

    /// The inverse, or zero for zero.
    pub fn invert(&self) -> (r: Fe)
        ensures
            self@ == 0 ==> r@ == 0,
            self@ != 0 ==> (self@ * r@) % modulus() == 1,
    {
        fe_invert(self)
    }

    pub fn equals(&self, o: &Fe) -> (r: bool)
        ensures
            r == (self@ == o@),
    {
        fe_eq(self, o)
    }

    pub fn is_zero(&self) -> (r: bool)
        ensures
            r == (self@ == 0),
    {
        let z = fe_from_u64(0);
        fe_eq(self, &z)
    }
}

/// Relies on `From<u64>` for `pallas::Base`: a small integer keeps its value.
#[verifier::external_body]
fn fe_from_u64(n: u64) -> (r: Fe)
    ensures
        r@ == n as nat,
{
    Fe { bytes: pallas::Base::from(n).to_repr() }
}

/// Relies on `Add` for `pallas::Base`: addition modulo the field order.
#[verifier::external_body]
fn fe_add(a: &Fe, b: &Fe) -> (r: Fe)
    ensures
        r@ == (a@ + b@) % modulus(),
{
    let x = pallas::Base::from_repr(a.bytes).unwrap();
    let y = pallas::Base::from_repr(b.bytes).unwrap();
    Fe { bytes: (x + y).to_repr() }
}

/// Relies on `Mul` for `pallas::Base`: multiplication modulo the field order.
#[verifier::external_body]
fn fe_mul(a: &Fe, b: &Fe) -> (r: Fe)
    ensures
        r@ == (a@ * b@) % modulus(),
{
    let x = pallas::Base::from_repr(a.bytes).unwrap();
    let y = pallas::Base::from_repr(b.bytes).unwrap();
    Fe { bytes: (x * y).to_repr() }
}

/// Relies on `Neg` for `pallas::Base`: the additive inverse modulo the field order.
#[verifier::external_body]
fn fe_neg(a: &Fe) -> (r: Fe)
    ensures
        r@ == (modulus() - a@) % modulus() as int,
{
    let x = pallas::Base::from_repr(a.bytes).unwrap();
    Fe { bytes: (-x).to_repr() }
}

/// Relies on `ff::Field::invert` for `pallas::Base`: the multiplicative
/// inverse of a nonzero element; zero has none and is mapped to zero.
#[verifier::external_body]
fn fe_invert(a: &Fe) -> (r: Fe)
    ensures
        a@ == 0 ==> r@ == 0,
        a@ != 0 ==> (a@ * r@) % modulus() == 1,
{
    let x = pallas::Base::from_repr(a.bytes).unwrap();
    Fe { bytes: x.invert().unwrap_or(pallas::Base::ZERO).to_repr() }
}

/// Relies on `PartialEq` for `pallas::Base`: equal exactly when the field
/// elements are.
#[verifier::external_body]
fn fe_eq(a: &Fe, b: &Fe) -> (r: bool)
    ensures
        r == (a@ == b@),
{
    let x = pallas::Base::from_repr(a.bytes).unwrap();
    let y = pallas::Base::from_repr(b.bytes).unwrap();
    x == y
}

} // verus!
