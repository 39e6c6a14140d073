//! Range checks by a vanishing polynomial: `w * (1 - w) * ... * (R - 1 - w)`
//! is zero exactly on the integers below `R`.

use crate::constraint_system::{views_of, ConstraintSystem, FixedUse, Selector, Shape};
use crate::error::Error;
use crate::expression::{all_columns, eval, expr_view, lemma_eval_by_view, ExprView, Expression, Rotation};
use crate::field::Fe;
use crate::layout::{AssignedCell, Layouter};
use crate::prover::{instances_fit, lemma_single_gate_rows_clean, lemma_single_gate_rows_one, table_rows, Circuit, Fault, MockProver};
use crate::field::modulus;
use crate::table::{Column, ColumnKind, Table};
use crate::value::{add_resolved, lemma_add_neg_zero, mul_resolved, neg_resolved, Resolved, Value};
use vstd::arithmetic::power2::pow2;
use vstd::prelude::*;

verus! {

/// A value together with the number of bits it is known to fit in.
#[derive(Clone, Copy, Debug, PartialEq, Eq)]
pub struct RangeConstrained<T> {
    inner: T,
    num_bits: usize,
}

impl<T> RangeConstrained<T> {
    pub closed spec fn spec_inner(&self) -> T {
        self.inner
    }

    pub closed spec fn spec_num_bits(&self) -> usize {
        self.num_bits
    }

    /// The range-constrained value.
    pub fn inner(&self) -> (r: &T)
        ensures
            *r == self.spec_inner(),
    {
        &self.inner
    }

    /// The number of bits the value is constrained to.
    pub fn num_bits(&self) -> (r: usize)
        ensures
            r == self.spec_num_bits(),
    {
        self.num_bits
    }
}

impl RangeConstrained<AssignedCell> {
    /// Wraps a cell without checking that anything constrains its range.
    pub fn unsound_unchecked(cell: AssignedCell, num_bits: usize) -> (r: Self)
        ensures
            r.spec_inner() == cell,
            r.spec_num_bits() == num_bits,
    {
        RangeConstrained { inner: cell, num_bits }
    }

    /// The cell's value, with the same bound.
    pub fn value(&self) -> (r: RangeConstrained<Value>)
        ensures
            r.spec_inner() == self.spec_inner().value,
            r.spec_num_bits() == self.spec_num_bits(),
    {
        RangeConstrained { inner: self.inner.value(), num_bits: self.num_bits }
    }
}

/// `word` times `(i - word)` for each `i` from 1 below `range`, the factors
/// taken in increasing order.
pub open spec fn range_poly_view(word: ExprView, range: int) -> ExprView
    decreases range,
{
    if range <= 1 {
        word
    } else {
        ExprView::Product(
            Box::new(range_poly_view(word, range - 1)),
            Box::new(ExprView::Sum(
                Box::new(ExprView::Constant((range - 1) as nat)),
                Box::new(ExprView::Negated(Box::new(word))),
            )),
        )
    }
}

/// The polynomial that vanishes when `word` lies in `[0, range)`.
pub fn range_check(word: Expression, range: usize) -> (r: Expression)
    ensures
        expr_view(r) == range_poly_view(expr_view(word), range as int),
{
    let mut acc = word.duplicate();
    let mut i: usize = 1;
    while i < range
        invariant
            1 <= i,
            i <= range || range == 0,
            range == 0 ==> i == 1,
            expr_view(acc) == range_poly_view(expr_view(word), i as int),
        decreases range - i,
    {
        let k = Fe::from_u64(i as u64);
        let ghost prev = acc;
        acc = acc.mul(Expression::constant(k).sub(word.duplicate()));
        proof {
            let wv = expr_view(word);
            reveal_with_fuel(expr_view, 4);
            assert(expr_view(acc) == ExprView::Product(
                Box::new(expr_view(prev)),
                Box::new(ExprView::Sum(
                    Box::new(ExprView::Constant(i as nat)),
                    Box::new(ExprView::Negated(Box::new(wv))),
                )),
            ));
            assert(range_poly_view(wv, i + 1) == ExprView::Product(
                Box::new(range_poly_view(wv, i as int)),
                Box::new(ExprView::Sum(
                    Box::new(ExprView::Constant(i as nat)),
                    Box::new(ExprView::Negated(Box::new(wv))),
                )),
            ));
        }
        i = i + 1;
    }
    proof {
        if range == 0 {
            assert(range_poly_view(expr_view(word), 0) == expr_view(word));
            assert(range_poly_view(expr_view(word), 1) == expr_view(word));
        }
    }
    acc
}

/// The polynomial that vanishes when `value` is 0 or 1.
pub fn bool_check(value: Expression) -> (r: Expression)
    ensures
        expr_view(r) == range_poly_view(expr_view(value), 2),
{
    range_check(value, 2)
}

/// The columns of the range-check circuit.
#[derive(Clone, Copy, Debug, PartialEq, Eq, Structural)]
pub struct Config {
    pub selector: Selector,
    pub advice: Column,
}

/// A circuit that places one byte in an advice cell and checks that it is
/// below `RANGE`.
#[derive(Clone, Copy, Debug, PartialEq, Eq)]
pub struct MyCircuit<const RANGE: usize>(pub u8);

pub open spec fn range_config(s: Shape) -> Config {
    Config {
        selector: Selector { column: s.fixed.len() as usize, complex: false },
        advice: Column { kind: ColumnKind::Advice, index: s.num_advice as usize },
    }
}

/// The constraint of the `range check` gate: the selector times the
/// polynomial on the advice cell.
pub open spec fn range_gate_view(c: Config, range: int) -> ExprView {
    ExprView::Product(
        Box::new(ExprView::Cell(Column { kind: ColumnKind::Fixed, index: c.selector.column }, 0)),
        Box::new(range_poly_view(ExprView::Cell(c.advice, 0), range)),
    )
}

/// The registry after `configure` of a circuit with bound `range`.
pub open spec fn range_layout(s: Shape, range: int) -> Shape {
    let c = range_config(s);
    Shape {
        num_advice: s.num_advice + 1,
        fixed: s.fixed.push(FixedUse::Selector),
        gates: s.gates.push(("range check"@, seq![range_gate_view(c, range)])),
        ..s
    }
}

/// The polynomial reads only the cells that `word` reads.
proof fn lemma_range_poly_columns(e: Expression, word: Expression, range: int, ok: spec_fn(Column) -> bool)
    requires
        expr_view(e) == range_poly_view(expr_view(word), range),
        all_columns(word, ok),
    ensures
        all_columns(e, ok),
    decreases range,
{
    reveal_with_fuel(expr_view, 3);
    reveal_with_fuel(all_columns, 3);
    if range <= 1 {
        lemma_view_columns(e, word, ok);
    } else {
        let wv = expr_view(word);
        assert(range_poly_view(wv, range) == ExprView::Product(
            Box::new(range_poly_view(wv, range - 1)),
            Box::new(ExprView::Sum(
                Box::new(ExprView::Constant((range - 1) as nat)),
                Box::new(ExprView::Negated(Box::new(wv))),
            )),
        ));
        match e {
            Expression::Product(acc, factor) => {
                assert(expr_view(*acc) == range_poly_view(wv, range - 1));
                lemma_range_poly_columns(*acc, word, range - 1, ok);
                match *factor {
                    Expression::Sum(c, n) => match *n {
                        Expression::Negated(w) => {
                            assert(expr_view(*n) == ExprView::Negated(Box::new(expr_view(*w))));
                            lemma_view_columns(*w, word, ok);
                            assert(all_columns(*n, ok));
                            assert(all_columns(*c, ok));
                        },
                        _ => {
                            assert(expr_view(*factor) == ExprView::Sum(Box::new(expr_view(*c)), Box::new(expr_view(*n))));
                        },
                    },
                    _ => {},
                }
            },
            _ => {},
        }
    }
}

/// The range polynomial vanishes on every integer below the range: a word
/// whose value lies in `[0, range)` satisfies the range check.
pub proof fn lemma_range_poly_vanishes(e: Expression, word: Expression, range: int, t: Table, row: int, v: nat)
    requires
        expr_view(e) == range_poly_view(expr_view(word), range),
        eval(word, t, row) == Resolved::Known(v),
        v < range <= modulus(),
    ensures
        eval(e, t, row) == Resolved::Known(0),
    decreases range,
{
    reveal_with_fuel(expr_view, 3);
    let wv = expr_view(word);
    if range <= 1 {
        lemma_eval_by_view(e, word, t, row);
    } else {
        assert(range_poly_view(wv, range) == ExprView::Product(
            Box::new(range_poly_view(wv, range - 1)),
            Box::new(ExprView::Sum(
                Box::new(ExprView::Constant((range - 1) as nat)),
                Box::new(ExprView::Negated(Box::new(wv))),
            )),
        ));
        match e {
            Expression::Product(acc, factor) => {
                assert(expr_view(*acc) == range_poly_view(wv, range - 1));
                if v < range - 1 {
                    lemma_range_poly_vanishes(*acc, word, range - 1, t, row, v);
                } else {
                    match *factor {
                        Expression::Sum(c, n) => match *n {
                            Expression::Negated(w) => {
                                assert(expr_view(*n) == ExprView::Negated(Box::new(expr_view(*w))));
                                lemma_eval_by_view(*w, word, t, row);
                                assert(expr_view(*c) == ExprView::Constant((range - 1) as nat));
                                assert(eval(*c, t, row) == Resolved::Known(v)) by {
                                    match *c {
                                        Expression::Constant(k) => {},
                                        _ => {},
                                    }
                                }
                                lemma_add_neg_zero(v);
                                assert(eval(*n, t, row) == neg_resolved(eval(*w, t, row)));
                                assert(eval(*factor, t, row) == add_resolved(eval(*c, t, row), eval(*n, t, row)));
                                assert(eval(*factor, t, row) == Resolved::Known(0));
                            },
                            _ => {
                                assert(expr_view(*factor) == ExprView::Sum(Box::new(expr_view(*c)), Box::new(expr_view(*n))));
                            },
                        },
                        _ => {},
                    }
                }
            },
            _ => {},
        }
    }
}

/// The range-check circuit is satisfied when its byte lies below the bound:
/// with the registry that `configure` declares, the selector on only at
/// row `start`, and the advice cell there holding `v < range`, the mock
/// verifier reports nothing.
pub proof fn lemma_range_check_satisfied(p: MockProver, c: Config, range: int, start: int, v: nat)
    requires
        p.cs.gates@.len() == 1,
        p.cs.gates@[0].constraints@.len() == 1,
        expr_view(p.constraint(0, 0)) == range_gate_view(c, range),
        p.cs.lookups@.len() == 0,
        p.layout.copies@.len() == 0,
        p.layout.publics@.len() == 0,
        0 <= start < p.table().rows,
        p.table().cell(Column { kind: ColumnKind::Fixed, index: c.selector.column }, start) == Resolved::Known(1),
        forall|row: int|
            0 <= row < p.table().rows && row != start ==> #[trigger] p.table().cell(
                Column { kind: ColumnKind::Fixed, index: c.selector.column },
                row,
            ) == Resolved::Known(0),
        p.table().cell(c.advice, start) == Resolved::Known(v),
        v < range <= modulus(),
    ensures
        p.faults() == Seq::<Fault>::empty(),
{
    let e = p.constraint(0, 0);
    let sel = Column { kind: ColumnKind::Fixed, index: c.selector.column };
    let word = Expression::Cell(c.advice, Rotation(0));
    reveal_with_fuel(expr_view, 2);
    assert forall|row: int| 0 <= row < p.table().rows implies !#[trigger] p.gate_fault(0, 0, row) by {
        match e {
            Expression::Product(s, poly) => {
                assert(expr_view(*s) == ExprView::Cell(sel, 0));
                match *s {
                    Expression::Cell(col, rot) => {
                        assert(col == sel && rot.0 == 0);
                    },
                    _ => {},
                }
                assert(eval(*s, p.table(), row) == p.table().cell(sel, row));
                if row == start {
                    assert(expr_view(word) == ExprView::Cell(c.advice, 0));
                    lemma_range_poly_vanishes(*poly, word, range, p.table(), row, v);
                }
            },
            _ => {},
        }
    }
    lemma_single_gate_rows_clean(p, p.table().rows as int);
    assert(p.copy_faults(0) == Seq::<Fault>::empty());
    assert(p.public_faults(0) == Seq::<Fault>::empty());
    assert(p.faults() =~= Seq::<Fault>::empty());
}

/// The value of the range polynomial on a word of value `v`: `v` times
/// `(i - v)` for each `i` from 1 below `range`, in the field.
pub open spec fn range_value(v: nat, range: int) -> nat
    decreases range,
{
    if range <= 1 {
        v
    } else {
        (range_value(v, range - 1) * ((((range - 1) as nat) + ((modulus() - v) % modulus() as int) as nat) % modulus()))
            % modulus()
    }
}

/// The range polynomial evaluates to `range_value` on a known word.
pub proof fn lemma_range_poly_value(e: Expression, word: Expression, range: int, t: Table, row: int, v: nat)
    requires
        expr_view(e) == range_poly_view(expr_view(word), range),
        eval(word, t, row) == Resolved::Known(v),
    ensures
        eval(e, t, row) == Resolved::Known(range_value(v, range)),
    decreases range,
{
    reveal_with_fuel(expr_view, 3);
    let wv = expr_view(word);
    if range <= 1 {
        lemma_eval_by_view(e, word, t, row);
    } else {
        assert(range_poly_view(wv, range) == ExprView::Product(
            Box::new(range_poly_view(wv, range - 1)),
            Box::new(ExprView::Sum(
                Box::new(ExprView::Constant((range - 1) as nat)),
                Box::new(ExprView::Negated(Box::new(wv))),
            )),
        ));
        match e {
            Expression::Product(acc, factor) => {
                assert(expr_view(*acc) == range_poly_view(wv, range - 1));
                lemma_range_poly_value(*acc, word, range - 1, t, row, v);
                match *factor {
                    Expression::Sum(c, n) => match *n {
                        Expression::Negated(w) => {
                            assert(expr_view(*n) == ExprView::Negated(Box::new(expr_view(*w))));
                            lemma_eval_by_view(*w, word, t, row);
                            assert(expr_view(*c) == ExprView::Constant((range - 1) as nat));
                            assert(eval(*c, t, row) == Resolved::Known((range - 1) as nat)) by {
                                match *c {
                                    Expression::Constant(k) => {},
                                    _ => {},
                                }
                            }
                            assert(eval(*n, t, row) == neg_resolved(eval(*w, t, row)));
                            assert(eval(*factor, t, row) == add_resolved(eval(*c, t, row), eval(*n, t, row)));
                            let a = range_value(v, range - 1);
                            let f = (((range - 1) as nat) + ((modulus() - v) % modulus() as int) as nat) % modulus();
                            assert(eval(*factor, t, row) == Resolved::Known(f));
                            if a == 0 {
                                vstd::arithmetic::mul::lemma_mul_basics(f as int);
                            }
                            if f == 0 {
                                vstd::arithmetic::mul::lemma_mul_basics(a as int);
                            }
                            assert(eval(e, t, row) == mul_resolved(Resolved::Known(a), Resolved::Known(f)));
                        },
                        _ => {
                            assert(expr_view(*factor) == ExprView::Sum(Box::new(expr_view(*c)), Box::new(expr_view(*n))));
                        },
                    },
                    _ => {},
                }
            },
            _ => {},
        }
    }
}

/// A small product times a negated small factor, in the field.
proof fn lemma_times_negated(s: int, m: int)
    requires
        0 < s,
        0 < m,
        s * m < modulus(),
    ensures
        (s * (modulus() - m)) % (modulus() as int) == modulus() - s * m,
{
    let p = modulus() as int;
    assert(s * (p - m) == p * (s - 1) + (p - s * m)) by (nonlinear_arith);
    assert(0 < s * m) by (nonlinear_arith)
        requires
            0 < s,
            0 < m,
    ;
    vstd::arithmetic::div_mod::lemma_mod_multiples_vanish(s - 1, p - s * m, p);
    vstd::arithmetic::div_mod::lemma_small_mod((p - s * m) as nat, p as nat);
}

/// Two negated small factors multiply to their plain product.
proof fn lemma_negated_times_negated(s: int, m: int)
    requires
        0 < s,
        0 < m,
        s * m < modulus(),
    ensures
        ((modulus() - s) * (modulus() - m)) % (modulus() as int) == s * m,
{
    let p = modulus() as int;
    assert((p - s) * (p - m) == p * (p - s - m) + s * m) by (nonlinear_arith);
    vstd::arithmetic::div_mod::lemma_mod_multiples_vanish(p - s - m, s * m, p);
    vstd::arithmetic::div_mod::lemma_small_mod((s * m) as nat, p as nat);
}

/// `v (v - 1) ... (v - k + 1)`, the product of `k` integers counting down
/// from `v`.
pub open spec fn falling(v: nat, k: nat) -> nat
    decreases k,
{
    if k == 0 {
        1
    } else {
        falling(v, (k - 1) as nat) * ((v - (k - 1)) as nat)
    }
}

pub open spec fn pow256(k: nat) -> nat
    decreases k,
{
    if k == 0 {
        1
    } else {
        256 * pow256((k - 1) as nat)
    }
}

/// For a byte, `k` factors counting down stay positive and below `256^k`.
proof fn lemma_falling_bounds(v: nat, k: nat)
    requires
        k <= v < 256,
    ensures
        0 < falling(v, k),
        falling(v, k) <= pow256(k),
    decreases k,
{
    if k > 0 {
        lemma_falling_bounds(v, (k - 1) as nat);
        let f = falling(v, (k - 1) as nat);
        let m = (v - (k - 1)) as nat;
        let q = pow256((k - 1) as nat);
        assert(0 < f * m && f * m <= 256 * q) by (nonlinear_arith)
            requires
                0 < f <= q,
                0 < m < 256,
        ;
    }
}

/// `256^31` lies below the field order.
proof fn lemma_pow256_small()
    ensures
        pow256(31) < modulus(),
{
    reveal_with_fuel(pow256, 32);
}

/// On a byte `v` at or above the range, the range polynomial takes the
/// value `(-1)^(k + 1) v (v - 1) ... (v - k + 1)` after `k` factors, so it is
/// not zero in the field.
pub proof fn lemma_range_value_beyond(v: nat, k: nat)
    requires
        1 <= k <= 31,
        k <= v < 256,
    ensures
        range_value(v, k as int) == if k % 2 == 1 {
            falling(v, k)
        } else {
            (modulus() - falling(v, k)) as nat
        },
        range_value(v, k as int) != 0,
        range_value(v, k as int) < modulus(),
    decreases k,
{
    let p = modulus();
    lemma_falling_bounds(v, k);
    lemma_pow256_small();
    assert(pow256(k) <= pow256(31)) by {
        lemma_pow256_monotone(k, 31);
    }
    if k == 1 {
        assert(falling(v, 0) == 1);
        vstd::arithmetic::mul::lemma_mul_basics(v as int);
        assert(falling(v, 1) == v);
    } else {
        let j = (k - 1) as nat;
        lemma_range_value_beyond(v, j);
        let m = (v - j) as nat;
        let f = falling(v, j);
        assert(falling(v, k) == f * m);
        vstd::arithmetic::div_mod::lemma_small_mod((p - v) as nat, p);
        vstd::arithmetic::div_mod::lemma_small_mod((j + p - v) as nat, p);
        assert(((j + ((p - v) % p as int) as nat) % p) == p - m);
        let prev = range_value(v, j as int);
        lemma_falling_bounds(v, j);
        lemma_pow256_monotone(j, 31);
        assert(range_value(v, k as int) == (prev * ((p - m) as nat)) % p);
        assert(f * m < p);
        assert(m > 0);
        if j % 2 == 1 {
            assert(prev == f);
            lemma_times_negated(f as int, m as int);
            assert(k % 2 == 0);
            assert(range_value(v, k as int) == p - f * m);
        } else {
            assert(prev == p - f);
            lemma_negated_times_negated(f as int, m as int);
            assert(k % 2 == 1);
            assert(range_value(v, k as int) == f * m);
        }
    }
}

proof fn lemma_pow256_monotone(a: nat, b: nat)
    requires
        a <= b,
    ensures
        pow256(a) <= pow256(b),
    decreases b,
{
    if a < b {
        lemma_pow256_monotone(a, (b - 1) as nat);
    }
}

/// The range-check circuit rejects a byte at or above its bound: with the
/// registry that `configure` declares for a bound from 1 to 31, the selector
/// on only at row `start`, and the advice cell there holding a byte `v` no
/// smaller than the bound, the mock verifier reports exactly one fault, of
/// the `range check` gate at that row.
pub proof fn lemma_range_check_rejects(p: MockProver, c: Config, range: int, start: int, v: nat)
    requires
        p.cs.gates@.len() == 1,
        p.cs.gates@[0].constraints@.len() == 1,
        expr_view(p.constraint(0, 0)) == range_gate_view(c, range),
        p.cs.lookups@.len() == 0,
        p.layout.copies@.len() == 0,
        p.layout.publics@.len() == 0,
        0 <= start < p.table().rows,
        p.table().cell(Column { kind: ColumnKind::Fixed, index: c.selector.column }, start) == Resolved::Known(1),
        forall|row: int|
            0 <= row < p.table().rows && row != start ==> #[trigger] p.table().cell(
                Column { kind: ColumnKind::Fixed, index: c.selector.column },
                row,
            ) == Resolved::Known(0),
        p.table().cell(c.advice, start) == Resolved::Known(v),
        1 <= range <= 31,
        range <= v < 256,
    ensures
        p.faults() == seq![Fault::Gate { gate: 0, constraint: 0, row: start }],
{
    let e = p.constraint(0, 0);
    let sel = Column { kind: ColumnKind::Fixed, index: c.selector.column };
    let word = Expression::Cell(c.advice, Rotation(0));
    reveal_with_fuel(expr_view, 2);
    lemma_range_value_beyond(v, range as nat);
    assert forall|row: int| 0 <= row < p.table().rows implies (#[trigger] p.gate_fault(0, 0, row) <==> row == start) by {
        match e {
            Expression::Product(s, poly) => {
                assert(expr_view(*s) == ExprView::Cell(sel, 0));
                match *s {
                    Expression::Cell(col, rot) => {
                        assert(col == sel && rot.0 == 0);
                    },
                    _ => {},
                }
                assert(eval(*s, p.table(), row) == p.table().cell(sel, row));
                if row == start {
                    assert(expr_view(word) == ExprView::Cell(c.advice, 0));
                    lemma_range_poly_value(*poly, word, range, p.table(), row, v);
                    let x = range_value(v, range);
                    vstd::arithmetic::mul::lemma_mul_basics(x as int);
                    vstd::arithmetic::div_mod::lemma_small_mod(x, modulus());
                    assert(eval(e, p.table(), row) == mul_resolved(Resolved::Known(1), Resolved::Known(x)));
                }
            },
            _ => {},
        }
    }
    lemma_single_gate_rows_one(p, p.table().rows as int, start);
    assert(p.copy_faults(0) == Seq::<Fault>::empty());
    assert(p.public_faults(0) == Seq::<Fault>::empty());
    assert(p.faults() =~= seq![Fault::Gate { gate: 0, constraint: 0, row: start }]);
}

/// Two expressions with the same view read the same columns.
proof fn lemma_view_columns(a: Expression, b: Expression, ok: spec_fn(Column) -> bool)
    requires
        expr_view(a) == expr_view(b),
        all_columns(b, ok),
    ensures
        all_columns(a, ok),
    decreases a,
{
    match a {
        Expression::Constant(_) => {},
        Expression::Cell(_, _) => {
            assert(b is Cell);
        },
        Expression::Negated(x) => match b {
            Expression::Negated(y) => lemma_view_columns(*x, *y, ok),
            _ => {},
        },
        Expression::Sum(x1, x2) => match b {
            Expression::Sum(y1, y2) => {
                lemma_view_columns(*x1, *y1, ok);
                lemma_view_columns(*x2, *y2, ok);
            },
            _ => {},
        },
        Expression::Product(x1, x2) => match b {
            Expression::Product(y1, y2) => {
                lemma_view_columns(*x1, *y1, ok);
                lemma_view_columns(*x2, *y2, ok);
            },
            _ => {},
        },
        Expression::Scaled(x, _) => match b {
            Expression::Scaled(y, _) => lemma_view_columns(*x, *y, ok),
            _ => {},
        },
    }
}

/// Configuring two registries of the same shape for the same bound yields
/// registries of the same shape.
pub proof fn lemma_configure_deterministic(a0: ConstraintSystem, a1: ConstraintSystem, b0: ConstraintSystem, b1: ConstraintSystem, range: int)
    requires
        a0.shape() == b0.shape(),
        a1.shape() == range_layout(a0.shape(), range),
        b1.shape() == range_layout(b0.shape(), range),
    ensures
        a1.shape() == b1.shape(),
        range_config(a0.shape()) == range_config(b0.shape()),
{
}

impl<const RANGE: usize> MyCircuit<RANGE> {
    /// Runs the mock verifier on this circuit with a table of `2^k` rows.
    /// The run succeeds exactly when `k` is at most 28 and no public inputs
    /// are given. Then the table is satisfied when the byte lies below
    /// `RANGE`; for a bound from 1 to 31 and a byte at or above it, the one
    /// fault is the `range check` gate at row 0.
    pub fn mock_run(&self, k: u32, instance: Vec<Vec<Fe>>) -> (r: Result<MockProver, Error>)
        ensures
            k > 28 ==> r == Err::<MockProver, Error>(Error::TooManyRows),
            k <= 28 ==> (r is Ok <==> instance@.len() == 0),
            r matches Ok(p) ==> {
                &&& p.wf()
                &&& p.k == k
                &&& p.table().rows == pow2(k as nat)
                &&& p.complete()
                &&& ((self.0 as int) < RANGE ==> p.faults() == Seq::<Fault>::empty())
                &&& (1 <= RANGE <= 31 && self.0 as int >= RANGE ==> p.faults() == seq![
                    Fault::Gate { gate: 0, constraint: 0, row: 0 },
                ])
            },
    {
        if k > 28 {
            return Err(Error::TooManyRows);
        }
        let rows = table_rows(k);
        let mut cs = ConstraintSystem::new();
        let ghost s0 = cs.shape();
        let config = <MyCircuit<RANGE> as Circuit>::configure(&mut cs);
        proof {
            let s1 = cs.shape();
            assert(s0.fixed =~= Seq::<FixedUse>::empty());
            assert(cs.num_instance == 0 && cs.num_advice == 1 && cs.fixed@.len() == 1 && cs.num_table == 0);
            assert(cs.fixed@ == s1.fixed);
            assert(cs.fixed@[0] == FixedUse::Selector);
            assert(s1.gates.len() == 1);
            assert(s1.gates[0] == (cs.gates@[0].name@, views_of(cs.gates@[0].constraints@)));
            assert(s1.lookups.len() == 0);
            assert(config == range_config(s0));
            assert(views_of(cs.gates@[0].constraints@) == seq![range_gate_view(config, RANGE as int)]);
            assert(views_of(cs.gates@[0].constraints@).len() == 1);
            assert(cs.gates@[0].constraints@.len() == 1);
            assert(views_of(cs.gates@[0].constraints@)[0] == expr_view(cs.gates@[0].constraints@[0]));
        }
        if !instances_fit(&instance, cs.num_instance, rows) {
            return Err(Error::InvalidInstances);
        }
        let mut layout = Layouter::new(rows, &cs, &instance);
        let ghost l0 = layout;
        let sel = Column { kind: ColumnKind::Fixed, index: config.selector.column };
        proof {
            assert(l0.cursor() == 0);
            assert(l0.table.has_column(config.advice));
            assert(l0.table.has_column(sel));
        }
        match self.synthesize(&config, &mut layout) {
            Ok(()) => {},
            Err(e) => {
                return Err(e);
            },
        }
        let ghost l1 = layout;
        proof {
            assert(l1.table.columns(ColumnKind::Advice).len() == 1);
            assert(l1.table.columns(ColumnKind::Fixed).len() == 1);
            assert(l1.table.columns(ColumnKind::Instance).len() == 0);
            assert(l1.table.columns(ColumnKind::Table).len() == 0);
        }
        let p = MockProver { k, cs, layout };
        proof {
            let t = p.table();
            let v = self.0 as nat;
            let e = p.constraint(0, 0);
            let word = Expression::Cell(config.advice, Rotation(0));
            assert forall|row: int| 0 <= row < t.rows && row != 0 implies #[trigger] t.cell(sel, row) == Resolved::Known(0) by {
                assert(l0.table.cell(sel, row) == Resolved::Known(0));
            }
            assert(l0.copies@.len() == 0);
            assert(l0.publics@.len() == 0);
            if (self.0 as int) < RANGE {
                lemma_range_check_satisfied(p, config, RANGE as int, 0, v);
            }
            if 1 <= RANGE <= 31 && self.0 as int >= RANGE {
                lemma_range_check_rejects(p, config, RANGE as int, 0, v);
            }
            reveal_with_fuel(expr_view, 2);
            assert forall|g0: int, c: int, row: int|
                0 <= g0 < p.cs.gates@.len() && 0 <= c < p.cs.gates@[g0].constraints@.len() && 0 <= row < t.rows
                    implies !(#[trigger] eval(p.constraint(g0, c), t, row) is Missing) by {
                match e {
                    Expression::Product(s, poly) => {
                        assert(expr_view(*s) == ExprView::Cell(sel, 0));
                        match *s {
                            Expression::Cell(col, rot) => {
                                assert(col == sel && rot.0 == 0);
                            },
                            _ => {},
                        }
                        assert(eval(*s, t, row) == t.cell(sel, row));
                        if row == 0 {
                            assert(expr_view(word) == ExprView::Cell(config.advice, 0));
                            lemma_range_poly_value(*poly, word, RANGE as int, t, row, v);
                        }
                    },
                    _ => {},
                }
            }
            assert(p.complete());
        }
        MockProver::from_parts(p)
    }

    /// Declares a selector and an advice column, and adds the `range check`
    /// gate for the bound `RANGE`.
    pub fn configure_range(cs: &mut ConstraintSystem) -> (config: Config)
        requires
            old(cs).wf(),
            old(cs).num_advice < usize::MAX,
            old(cs).fixed@.len() < usize::MAX,
        ensures
            final(cs).wf(),
            config == range_config(old(cs).shape()),
            final(cs).shape() == range_layout(old(cs).shape(), RANGE as int),
    {
        let ghost s = cs.shape();
        let selector = cs.selector();
        let advice = cs.advice_column();
        let sel = cs.query_selector(selector);
        let cell = cs.query_advice(advice, Rotation::cur());
        let ghost word = cell;
        let poly = range_check(cell, RANGE);
        proof {
            lemma_range_poly_columns(poly, word, RANGE as int, |c: Column| cs.gate_column(c));
        }
        let gate = sel.mul(poly);
        let config = Config { selector, advice };
        let ghost g = gate;
        proof {
            reveal_with_fuel(expr_view, 3);
            reveal_with_fuel(all_columns, 3);
            assert(config == range_config(s));
            assert(expr_view(g) == range_gate_view(config, RANGE as int));
            assert(cs.gate_ok(gate));
        }
        let mut constraints: Vec<Expression> = Vec::new();
        constraints.push(gate);
        let ghost cv = constraints@;
        assert(cv =~= seq![g]);
        let ghost before = *cs;
        let _ = cs.create_gate("range check".to_owned(), constraints);
        proof {
            assert(before.gate_ok(cv[0]));
            assert(views_of(cv) =~= seq![expr_view(g)]);
            assert(cs.shape().gates =~= range_layout(s, RANGE as int).gates);
            assert(cs.shape().fixed =~= range_layout(s, RANGE as int).fixed);
        }
        config
    }

    pub fn without_witnesses(&self) -> (r: Self)
        ensures
            r == *self,
    {
        MyCircuit(self.0)
    }
}

impl<const RANGE: usize> Circuit for MyCircuit<RANGE> {
    type Config = Config;

    fn configure(cs: &mut ConstraintSystem) -> (config: Config)
        ensures
            config == range_config(old(cs).shape()),
            final(cs).shape() == range_layout(old(cs).shape(), RANGE as int),
    {
        Self::configure_range(cs)
    }

    /// Opens a one-row region holding the byte, with the selector on.
    fn synthesize(&self, config: &Config, layouter: &mut Layouter) -> (r: Result<(), Error>)
        ensures
            ({
                let l = *old(layouter);
                let start = l.cursor() as int;
                let sel = Column { kind: ColumnKind::Fixed, index: config.selector.column };
                &&& config.advice.kind == ColumnKind::Advice && l.table.has_column(config.advice)
                    && l.table.has_column(sel) && start < l.table.rows ==> r is Ok
                &&& r is Ok ==> final(layouter).table.cell(config.advice, start) == Resolved::Known(self.0 as nat)
                    && final(layouter).table.cell(sel, start) == Resolved::Known(1)
                &&& forall|c: Column, row: int|
                    !((c == config.advice || c == sel) && row == start) ==> #[trigger] final(layouter).table.cell(c, row)
                        == l.table.cell(c, row)
                &&& final(layouter).regions@.drop_last() == l.regions@
                &&& final(layouter).regions@.len() == l.regions@.len() + 1
                &&& final(layouter).regions@.last().start == start
                &&& final(layouter).copies == l.copies
                &&& final(layouter).publics == l.publics
            }),
    {
        layouter.assign_region("range constrain".to_owned());
        assert(layouter.regions@.drop_last() =~= old(layouter).regions@);
        match layouter.enable_selector(config.selector, 0) {
            Ok(()) => {},
            Err(e) => {
                return Err(e);
            },
        }
        match layouter.assign_advice(config.advice, 0, Value::known(Fe::from_u64(self.0 as u64))) {
            Ok(_) => Ok(()),
            Err(e) => Err(e),
        }
    }
}

} // verus!
