//! A running sum in one advice column: the first row holds a scalar, the
//! second a starting value, and each later row the row before plus the
//! scalar. One gate, enabled on the first row, ties rows 0, 1 and 2.

use crate::constraint_system::{lemma_fresh_not_enabled, views_of, ConstraintSystem, FixedUse, Selector, Shape};
use crate::error::Error;
use crate::expression::{all_columns, eval, expr_view, lemma_eval_by_view, Expression, Rotation};
use crate::field::{modulus, Fe};
use crate::layout::{AssignedCell, Layouter, PublicBinding};
use crate::prover::{instances_fit, lemma_single_gate_rows_clean, table_rows, Circuit, Fault, MockProver};
use crate::table::{CellRef, Column, ColumnKind, Table};
use crate::value::{add_resolved, lemma_add_neg, lemma_add_neg_zero, neg_resolved, Resolved, Value};
use vstd::arithmetic::div_mod::lemma_add_mod_noop;
use vstd::arithmetic::mul::lemma_mul_is_distributive_add_other_way;
use vstd::arithmetic::power2::pow2;
use vstd::prelude::*;

verus! {

#[derive(Clone, Copy, Debug, PartialEq, Eq, Structural)]
pub struct AddScalarConfig {
    pub advice: Column,
    pub selector: Selector,
    pub instance: Column,
}

#[derive(Clone, Copy, Debug, PartialEq, Eq, Structural)]
pub struct AddScalarChip {
    pub config: AddScalarConfig,
}

/// The constraint of the `add` gate, with `s` the selector: `s * ((a[1] + a[0]) - a[2])`.
pub open spec fn add_gate(c: AddScalarConfig) -> Expression {
    Expression::Product(
        Box::new(Expression::Cell(Column { kind: ColumnKind::Fixed, index: c.selector.column }, Rotation(0))),
        Box::new(Expression::Sum(
            Box::new(Expression::Sum(
                Box::new(Expression::Cell(c.advice, Rotation(1))),
                Box::new(Expression::Cell(c.advice, Rotation(0))),
            )),
            Box::new(Expression::Negated(Box::new(Expression::Cell(c.advice, Rotation(2))))),
        )),
    )
}

/// The columns that `configure` declares on a registry of shape `s`.
pub open spec fn add_scalar_config(s: Shape) -> AddScalarConfig {
    AddScalarConfig {
        advice: Column { kind: ColumnKind::Advice, index: s.num_advice as usize },
        selector: Selector { column: s.fixed.len() as usize, complex: false },
        instance: Column { kind: ColumnKind::Instance, index: s.num_instance as usize },
    }
}

/// The registry after `configure`.
pub open spec fn add_scalar_layout(s: Shape) -> Shape {
    let c = add_scalar_config(s);
    Shape {
        num_advice: s.num_advice + 1,
        num_instance: s.num_instance + 1,
        fixed: s.fixed.push(FixedUse::Selector),
        equality: s.equality.push(c.advice).push(c.instance),
        gates: s.gates.push(("add"@, seq![expr_view(add_gate(c))])),
        ..s
    }
}

/// The cells that `assign` may write, for a region starting at `start`: the
/// selector on the first row, and the advice column on the first `top + 1`
/// rows.
pub open spec fn assign_writes(c: AddScalarConfig, start: int, top: int, col: Column, row: int) -> bool {
    ||| col == c.advice && start <= row <= start + top
    ||| col == (Column { kind: ColumnKind::Fixed, index: c.selector.column }) && row == start
}

/// The value on row `i + 1` of the running sum: `value + i * scalar`.
pub open spec fn running(value: nat, scalar: nat, i: nat) -> nat {
    (value + i * scalar) % modulus()
}

/// One more step of the running sum adds the scalar.
pub proof fn lemma_running_step(value: nat, scalar: nat, i: nat)
    ensures
        (running(value, scalar, i) + scalar) % modulus() == running(value, scalar, i + 1),
{
    let p = modulus() as int;
    let x = value + i * scalar;
    lemma_add_mod_noop(x as int, scalar as int, p);
    vstd::arithmetic::div_mod::lemma_mod_twice(x as int, p);
    lemma_add_mod_noop(x as int % p, scalar as int, p);
    lemma_mul_is_distributive_add_other_way(scalar as int, i as int, 1);
}

impl AddScalarChip {
    pub fn construct(config: AddScalarConfig) -> (r: AddScalarChip)
        ensures
            r.config == config,
    {
        AddScalarChip { config }
    }

    /// Declares an instance column, an advice column and a selector, enables
    /// equality on both columns, and adds the `add` gate.
    pub fn configure(cs: &mut ConstraintSystem) -> (c: AddScalarConfig)
        requires
            old(cs).wf(),
            old(cs).num_advice < usize::MAX,
            old(cs).num_instance < usize::MAX,
            old(cs).fixed@.len() < usize::MAX,
        ensures
            final(cs).wf(),
            c == add_scalar_config(old(cs).shape()),
            final(cs).shape() == add_scalar_layout(old(cs).shape()),
    {
        let ghost s = cs.shape();
        let ghost s0 = *cs;
        let instance = cs.instance_column();
        let col_a = cs.advice_column();
        let selector = cs.selector();
        proof {
            lemma_fresh_not_enabled(s0, col_a);
        }
        let _ = cs.enable_equality(col_a);
        proof {
            lemma_fresh_not_enabled(s0, instance);
            assert(!cs.equality@.contains(instance));
        }
        let _ = cs.enable_equality(instance);
        let sel = cs.query_selector(selector);
        let scalar = cs.query_advice(col_a, Rotation::cur());
        let a = cs.query_advice(col_a, Rotation::next());
        let out = cs.query_advice(col_a, Rotation(2));
        let gate = sel.mul(a.add(scalar).sub(out));
        let config = AddScalarConfig { advice: col_a, selector, instance };
        assert(gate == add_gate(config));
        let ghost before_gate = *cs;
        let ghost g = gate;
        proof {
            reveal_with_fuel(all_columns, 6);
            assert(cs.gate_ok(gate));
        }
        let mut constraints: Vec<Expression> = Vec::new();
        constraints.push(gate);
        let ghost cv = constraints@;
        assert(cv =~= seq![g]);
        let _ = cs.create_gate("add".to_owned(), constraints);
        proof {
            assert(cs.gates@ == before_gate.gates@.push(cs.gates@.last()));
            assert(views_of(cv) =~= seq![expr_view(g)]);
            assert(cs.shape().gates =~= add_scalar_layout(s).gates);
            assert(cs.shape().fixed =~= add_scalar_layout(s).fixed);
            assert(cs.shape().equality =~= add_scalar_layout(s).equality);
            assert(cs.shape().lookups =~= add_scalar_layout(s).lookups);
        }
        config
    }

    /// The config's columns exist in the layouter's table with their kinds.
    pub open spec fn fits(self, l: Layouter) -> bool {
        &&& self.config.advice.kind == ColumnKind::Advice
        &&& l.table.has_column(self.config.advice)
        &&& l.table.has_column(Column { kind: ColumnKind::Fixed, index: self.config.selector.column })
    }

    /// Opens a region with the scalar on row 0, `value` on row 1 and, on each
    /// row from 2 to `nrows`, the row before plus the scalar; enables the
    /// gate on row 0. Returns the last cell written.
    pub fn assign(&self, value: Fe, scalar: Fe, nrows: usize, layouter: &mut Layouter) -> (r: Result<AssignedCell, Error>)
        requires
            old(layouter).wf(),
        ensures
            final(layouter).wf(),
            old(layouter).same_shape(*final(layouter)),
            old(layouter).keeps_instances(*final(layouter)),
            r is Ok <==> self.fits(*old(layouter)) && old(layouter).cursor() + if nrows > 1 { nrows as int } else { 1 } < old(layouter).table.rows,
            r matches Ok(cell) ==> {
                let start = old(layouter).cursor() as int;
                let top = if nrows > 1 { nrows as int } else { 1 };
                let a = self.config.advice;
                &&& cell.cell == (CellRef { column: a, row: (start + top) as usize })
                &&& cell.value@ == Some(running(value@, scalar@, (top - 1) as nat))
                &&& final(layouter).table.cell(Column { kind: ColumnKind::Fixed, index: self.config.selector.column }, start) == Resolved::Known(1)
                &&& final(layouter).table.cell(a, start) == Resolved::Known(scalar@)
                &&& forall|i: int| 1 <= i <= top ==> #[trigger] final(layouter).table.cell(a, start + i)
                    == Resolved::Known(running(value@, scalar@, (i - 1) as nat))
                &&& final(layouter).regions@.last().len == top + 1
            },
            forall|c: Column, row: int|
                !assign_writes(self.config, old(layouter).cursor() as int, if nrows > 1 { nrows as int } else { 1 }, c, row)
                    ==> #[trigger] final(layouter).table.cell(c, row) == old(layouter).table.cell(c, row),
            final(layouter).regions@.drop_last() == old(layouter).regions@,
            final(layouter).regions@.len() == old(layouter).regions@.len() + 1,
            final(layouter).regions@.last().start == old(layouter).cursor(),
            final(layouter).regions@.last().name@ == "entire circuit"@,
            final(layouter).equality == old(layouter).equality,
            final(layouter).copies == old(layouter).copies,
            final(layouter).publics == old(layouter).publics,
    {
        let ghost start = layouter.cursor() as int;
        let ghost top = if nrows > 1 { nrows as int } else { 1 };
        let a = self.config.advice;
        let sel_col = Column { kind: ColumnKind::Fixed, index: self.config.selector.column };
        layouter.assign_region("entire circuit".to_owned());
        assert(layouter.regions@.drop_last() =~= old(layouter).regions@);
        match layouter.enable_selector(self.config.selector, 0) {
            Ok(()) => {},
            Err(e) => {
                return Err(e);
            },
        }
        let scalar_cell = match layouter.assign_advice(a, 0, Value::known(scalar)) {
            Ok(c) => c,
            Err(e) => {
                return Err(e);
            },
        };
        let mut value_cell = match layouter.assign_advice(a, 1, Value::known(value)) {
            Ok(c) => c,
            Err(e) => {
                return Err(e);
            },
        };
        proof {
            value.lemma_reduced();
            vstd::arithmetic::div_mod::lemma_small_mod(value@, modulus());
            assert(running(value@, scalar@, 0) == value@);
        }
        let mut row: usize = 2;
        while row <= nrows
            invariant
                2 <= row,
                nrows < 2 ==> row == 2,
                nrows >= 2 ==> row <= nrows + 1,
                layouter.wf(),
                old(layouter).same_shape(*layouter),
                old(layouter).keeps_instances(*layouter),
                self.fits(*old(layouter)),
                layouter.regions@.len() == old(layouter).regions@.len() + 1,
                layouter.regions@.last().start == start,
                start == old(layouter).cursor(),
                top == if nrows > 1 { nrows as int } else { 1 },
                start + row - 1 < layouter.table.rows,
                layouter.table.rows == old(layouter).table.rows,
                layouter.table.cell(sel_col, start) == Resolved::Known(1),
                layouter.table.cell(a, start) == Resolved::Known(scalar@),
                forall|i: int| 1 <= i < row ==> #[trigger] layouter.table.cell(a, start + i)
                    == Resolved::Known(running(value@, scalar@, (i - 1) as nat)),
                value_cell.cell == (CellRef { column: a, row: (start + row - 1) as usize }),
                value_cell.value@ == Some(running(value@, scalar@, (row - 2) as nat)),
                scalar_cell.value == Value::Known(scalar),
                layouter.copies == old(layouter).copies,
                layouter.publics == old(layouter).publics,
                layouter.equality == old(layouter).equality,
                layouter.regions@.drop_last() == old(layouter).regions@,
                layouter.regions@.last().name@ == "entire circuit"@,
                layouter.regions@.last().len == row,
                forall|c: Column, r: int|
                    !assign_writes(self.config, start, top, c, r) ==> #[trigger] layouter.table.cell(c, r)
                        == old(layouter).table.cell(c, r),
                a == self.config.advice,
                sel_col == (Column { kind: ColumnKind::Fixed, index: self.config.selector.column }),
            decreases nrows + 1 - row,
        {
            let next = value_cell.value().add(&scalar_cell.value());
            let ghost before = *layouter;
            value_cell = match layouter.assign_advice(a, row, next) {
                Ok(c) => c,
                Err(e) => {
                    assert(layouter.table.has_column(a));
                    assert(start + row >= layouter.table.rows);
                    return Err(e);
                },
            };
            proof {
                lemma_running_step(value@, scalar@, (row - 2) as nat);
                assert forall|i: int| 1 <= i < row + 1 implies #[trigger] layouter.table.cell(a, start + i)
                    == Resolved::Known(running(value@, scalar@, (i - 1) as nat)) by {
                    if i < row {
                        assert(before.table.cell(a, start + i) == Resolved::Known(running(value@, scalar@, (i - 1) as nat)));
                    }
                }
            }
            row = row + 1;
        }
        Ok(value_cell)
    }

    /// Binds `cell` to row `row` of the instance column.
    pub fn expose_public(&self, layouter: &mut Layouter, cell: &AssignedCell, row: usize) -> (r: Result<(), Error>)
        requires
            old(layouter).wf(),
        ensures
            final(layouter).wf(),
            old(layouter).same_shape(*final(layouter)),
            old(layouter).keeps_instances(*final(layouter)),
            final(layouter).table == old(layouter).table,
            final(layouter).copies == old(layouter).copies,
            final(layouter).regions == old(layouter).regions,
            final(layouter).equality == old(layouter).equality,
            r is Ok ==> final(layouter).publics@ == old(layouter).publics@.push(
                PublicBinding { cell: cell.cell, instance: CellRef { column: self.config.instance, row } },
            ),
            r is Ok <==> self.config.instance.kind == ColumnKind::Instance
                && old(layouter).copy_fault(cell.cell) is None
                && old(layouter).copy_fault(CellRef { column: self.config.instance, row }) is None,
    {
        layouter.constrain_instance(cell.cell, self.config.instance, row)
    }
}

/// Configuring two registries of the same shape yields registries of the
/// same shape: the same columns, gates and lookups, in the same order.
pub proof fn lemma_configure_deterministic(a0: ConstraintSystem, a1: ConstraintSystem, b0: ConstraintSystem, b1: ConstraintSystem)
    requires
        a0.shape() == b0.shape(),
        a1.shape() == add_scalar_layout(a0.shape()),
        b1.shape() == add_scalar_layout(b0.shape()),
    ensures
        a1.shape() == b1.shape(),
        add_scalar_config(a0.shape()) == add_scalar_config(b0.shape()),
{
}

/// On a row where the selector is on and the advice column holds the
/// scalar, a value and that value plus the scalar, the `add` constraint is
/// zero: a running sum satisfies its gate.
pub proof fn lemma_add_gate_holds(c: AddScalarConfig, t: Table, start: int, value: nat, scalar: nat)
    requires
        value < modulus(),
        scalar < modulus(),
        t.cell(Column { kind: ColumnKind::Fixed, index: c.selector.column }, start) == Resolved::Known(1),
        t.cell(c.advice, start) == Resolved::Known(scalar),
        t.cell(c.advice, start + 1) == Resolved::Known(value),
        t.cell(c.advice, start + 2) == Resolved::Known((value + scalar) % modulus()),
    ensures
        eval(add_gate(c), t, start) == Resolved::Known(0),
{
    let x = (value + scalar) % modulus();
    lemma_add_neg_zero(x);
    reveal_with_fuel(eval, 4);
}

/// The `add` constraint at a row, with the selector 0 or 1 and the three
/// advice cells known: it is zero exactly when the selector is off or the
/// third cell holds the sum of the other two.
pub proof fn lemma_add_gate_verdict(c: AddScalarConfig, t: Table, row: int, s: nat, a0: nat, a1: nat, a2: nat)
    requires
        s == 0 || s == 1,
        a0 < modulus(),
        a1 < modulus(),
        a2 < modulus(),
        t.cell(Column { kind: ColumnKind::Fixed, index: c.selector.column }, row) == Resolved::Known(s),
        t.cell(c.advice, row) == Resolved::Known(a0),
        t.cell(c.advice, row + 1) == Resolved::Known(a1),
        t.cell(c.advice, row + 2) == Resolved::Known(a2),
    ensures
        eval(add_gate(c), t, row) is Known,
        (eval(add_gate(c), t, row) == Resolved::Known(0)) <==> (s == 0 || (a1 + a0) % modulus() == a2),
{
    reveal_with_fuel(eval, 4);
    let sum = (a1 + a0) % modulus();
    vstd::arithmetic::div_mod::lemma_mod_bound((a1 + a0) as int, modulus() as int);
    lemma_add_neg(sum, a2);
    let inner = add_resolved(Resolved::Known(sum), neg_resolved(Resolved::Known(a2)));
    if let Resolved::Known(z) = inner {
        vstd::arithmetic::mul::lemma_mul_basics(z as int);
        vstd::arithmetic::div_mod::lemma_mod_bound((sum + ((modulus() - a2) % modulus() as int)) as int, modulus() as int);
        vstd::arithmetic::div_mod::lemma_small_mod(z, modulus());
    }
}

/// The verdict on a running sum: with the registry that `configure`
/// declares and a table as `synthesize` leaves it (the selector on only at
/// `start`, the scalar and `top` sums below it, the last sum bound to public
/// input 0), the mock verifier reports nothing when the public input is the
/// last sum, and exactly the one `Public` fault otherwise.
pub proof fn lemma_running_sum_verdict(
    p: MockProver,
    c: AddScalarConfig,
    start: int,
    top: int,
    value: nat,
    scalar: nat,
    out: nat,
)
    requires
        p.cs.gates@.len() == 1,
        p.cs.gates@[0].constraints@.len() == 1,
        expr_view(p.constraint(0, 0)) == expr_view(add_gate(c)),
        p.cs.lookups@.len() == 0,
        p.layout.copies@.len() == 0,
        p.layout.publics@ == seq![
            PublicBinding {
                cell: CellRef { column: c.advice, row: (start + top) as usize },
                instance: CellRef { column: c.instance, row: 0 },
            },
        ],
        0 <= start,
        2 <= top,
        start + top < p.table().rows,
        p.table().cell(Column { kind: ColumnKind::Fixed, index: c.selector.column }, start) == Resolved::Known(1),
        forall|row: int|
            0 <= row < p.table().rows && row != start ==> #[trigger] p.table().cell(
                Column { kind: ColumnKind::Fixed, index: c.selector.column },
                row,
            ) == Resolved::Known(0),
        p.table().cell(c.advice, start) == Resolved::Known(scalar),
        forall|i: int| 1 <= i <= top ==> #[trigger] p.table().cell(c.advice, start + i)
            == Resolved::Known(running(value, scalar, (i - 1) as nat)),
        value < modulus(),
        scalar < modulus(),
        p.table().cell(c.instance, 0) == Resolved::Known(out),
    ensures
        out == running(value, scalar, (top - 1) as nat) ==> p.faults() == Seq::<Fault>::empty(),
        out != running(value, scalar, (top - 1) as nat) ==> p.faults() == seq![
            Fault::Public { binding: p.layout.publics@[0] },
        ],
{
    let e = p.constraint(0, 0);
    let g = add_gate(c);
    let sel = Column { kind: ColumnKind::Fixed, index: c.selector.column };
    assert forall|row: int| 0 <= row < p.table().rows implies !#[trigger] p.gate_fault(0, 0, row) by {
        lemma_eval_by_view(e, g, p.table(), row);
        if row == start {
            assert(p.table().cell(c.advice, start + 1) == Resolved::Known(running(value, scalar, 0)));
            assert(p.table().cell(c.advice, start + 2) == Resolved::Known(running(value, scalar, 1)));
            vstd::arithmetic::div_mod::lemma_small_mod(value, modulus());
            lemma_add_gate_holds(c, p.table(), start, value, scalar);
        } else {
            reveal_with_fuel(eval, 2);
            assert(p.table().cell(sel, row) == Resolved::Known(0));
        }
    }
    lemma_single_gate_rows_clean(p, p.table().rows as int);
    assert(p.copy_faults(0) == Seq::<Fault>::empty());
    assert(p.public_faults(0) == Seq::<Fault>::empty());
    let b = p.layout.publics@[0];
    assert(p.table().cell(b.cell.column, b.cell.row as int) == Resolved::Known(running(value, scalar, (top - 1) as nat)));
    if out == running(value, scalar, (top - 1) as nat) {
        assert(p.public_faults(1) =~= Seq::<Fault>::empty());
        assert(p.faults() =~= Seq::<Fault>::empty());
    } else {
        assert(p.public_faults(1) =~= seq![Fault::Public { binding: b }]);
        assert(p.faults() =~= seq![Fault::Public { binding: b }]);
    }
}

/// The scalar and the starting value that the running-sum examples use:
/// both one.
pub fn common() -> (r: (Fe, Fe))
    ensures
        r.0@ == 1,
        r.1@ == 1,
{
    let scalar = Fe::one();
    let value = Fe::one();
    (scalar, value)
}

/// The running-sum circuit: `nrows - 1` additions of `scalar` to `value`,
/// the result bound to the first public input.
#[derive(Clone, Copy, Debug, PartialEq, Eq)]
pub struct MyCircuit {
    pub scalar: Fe,
    pub value: Fe,
    pub nrows: usize,
}

impl MyCircuit {
    /// Runs the mock verifier on this circuit with a table of `2^k` rows and
    /// the given public inputs. The run succeeds exactly when `k` is at most
    /// 28, there is one public-input column no longer than the table, and
    /// `2 <= nrows < 2^k`. Then the table is satisfied exactly when the first
    /// public input (zero when absent) is the last running sum, and otherwise
    /// the one fault is the `Public` binding of that sum.
    pub fn mock_run(&self, k: u32, instance: Vec<Vec<Fe>>) -> (r: Result<MockProver, Error>)
        ensures
            k > 28 ==> r == Err::<MockProver, Error>(Error::TooManyRows),
            k <= 28 ==> (r is Ok <==> instance@.len() == 1 && instance@[0]@.len() <= pow2(k as nat) && 2 <= self.nrows
                < pow2(k as nat)),
            r matches Ok(p) ==> {
                let out = if instance@[0]@.len() > 0 { instance@[0]@[0]@ } else { 0 };
                let sum = running(self.value@, self.scalar@, (self.nrows - 1) as nat);
                &&& p.wf()
                &&& p.k == k
                &&& p.table().rows == pow2(k as nat)
                &&& p.complete()
                &&& (out == sum ==> p.faults() == Seq::<Fault>::empty())
                &&& (out != sum ==> p.faults() == seq![Fault::Public { binding: p.layout.publics@[0] }])
            },
    {
        if k > 28 {
            return Err(Error::TooManyRows);
        }
        let rows = table_rows(k);
        let mut cs = ConstraintSystem::new();
        let ghost s0 = cs.shape();
        let config = <MyCircuit as Circuit>::configure(&mut cs);
        proof {
            let s1 = cs.shape();
            assert(s1 == add_scalar_layout(s0));
            assert(s0.fixed =~= Seq::<FixedUse>::empty());
            assert(s0.equality =~= Seq::<Column>::empty());
            assert(cs.num_instance == 1 && cs.num_advice == 1 && cs.fixed@.len() == 1);
            assert(cs.fixed@ == s1.fixed);
            assert(cs.fixed@[0] == FixedUse::Selector);
            assert(cs.equality@ == s1.equality);
            assert(s1.gates.len() == 1);
            assert(s1.gates[0] == (cs.gates@[0].name@, views_of(cs.gates@[0].constraints@)));
            assert(views_of(cs.gates@[0].constraints@).len() == 1);
            assert(s1.lookups.len() == 0);
            assert(config == add_scalar_config(s0));
            assert(views_of(cs.gates@[0].constraints@) == seq![expr_view(add_gate(config))]);
            assert(views_of(cs.gates@[0].constraints@)[0] == expr_view(cs.gates@[0].constraints@[0]));
        }
        if !instances_fit(&instance, cs.num_instance, rows) {
            return Err(Error::InvalidInstances);
        }
        let mut layout = Layouter::new(rows, &cs, &instance);
        let ghost l0 = layout;
        let ghost top = if self.nrows > 1 { self.nrows as int } else { 1 };
        let sel = Column { kind: ColumnKind::Fixed, index: config.selector.column };
        proof {
            let chip = AddScalarChip { config };
            assert(l0.cursor() == 0);
            assert(l0.table.has_column(config.advice));
            assert(l0.table.has_column(sel));
            assert(l0.table.has_column(config.instance));
            assert(l0.equality@[0] == config.advice);
            assert(l0.equality@[1] == config.instance);
            assert(l0.equality_enabled(config.advice));
            assert(l0.equality_enabled(config.instance));
            assert(chip.fits(l0));
        }
        match self.synthesize(&config, &mut layout) {
            Ok(()) => {},
            Err(e) => {
                return Err(e);
            },
        }
        let ghost l1 = layout;
        proof {
            assert(l0.same_shape(l1));
            assert(l1.table.columns(ColumnKind::Advice).len() == 1);
            assert(l1.table.columns(ColumnKind::Fixed).len() == 1);
            assert(l1.table.columns(ColumnKind::Instance).len() == 1);
            assert(l1.table.columns(ColumnKind::Table).len() == 0);
        }
        let p = MockProver { k, cs, layout };
        let ghost out = if instance@[0]@.len() > 0 { instance@[0]@[0]@ } else { 0 };
        proof {
            let t = p.table();
            let g = add_gate(config);
            assert(expr_view(p.constraint(0, 0)) == expr_view(g));
            assert(t.cell(config.instance, 0) == l0.table.cell(config.instance, 0));
            assert(t.cell(config.instance, 0) == Resolved::Known(out));
            assert forall|row: int| 0 <= row < t.rows && row != 0 implies #[trigger] t.cell(sel, row) == Resolved::Known(0) by {
                assert(!assign_writes(config, 0, top, sel, row));
            }
            self.value.lemma_reduced();
            self.scalar.lemma_reduced();
            if self.nrows >= 2 {
                assert(p.layout.copies@.len() == 0);
                assert(l0.publics@ =~= Seq::<PublicBinding>::empty());
                assert(p.layout.publics@ =~= seq![
                    PublicBinding {
                        cell: CellRef { column: config.advice, row: (0 + top) as usize },
                        instance: CellRef { column: config.instance, row: 0 },
                    },
                ]);
                lemma_running_sum_verdict(p, config, 0, top, self.value@, self.scalar@, out);
                assert(t.cell(config.advice, 0int + 1) == Resolved::Known(running(self.value@, self.scalar@, 0)));
                assert(t.cell(config.advice, 0int + 2) == Resolved::Known(running(self.value@, self.scalar@, 1)));
                assert forall|g0: int, c: int, row: int|
                    0 <= g0 < p.cs.gates@.len() && 0 <= c < p.cs.gates@[g0].constraints@.len() && 0 <= row < t.rows
                        implies !(#[trigger] eval(p.constraint(g0, c), t, row) is Missing) by {
                    lemma_eval_by_view(p.constraint(0, 0), g, t, row);
                    if row == 0 {
                        assert(t.cell(config.advice, 1) == Resolved::Known(running(self.value@, self.scalar@, 0)));
                        assert(t.cell(config.advice, 2) == Resolved::Known(running(self.value@, self.scalar@, 1)));
                        vstd::arithmetic::div_mod::lemma_small_mod(self.value@, modulus());
                        lemma_add_gate_holds(config, t, 0, self.value@, self.scalar@);
                    } else {
                        reveal_with_fuel(eval, 2);
                    }
                }
                assert(p.complete());
            } else {
                lemma_eval_by_view(p.constraint(0, 0), g, t, 0);
                assert(!assign_writes(config, 0, top, config.advice, 2));
                assert(t.cell(config.advice, 2) == l0.table.cell(config.advice, 2));
                assert(t.cell(config.advice, 2) is Missing);
                reveal_with_fuel(eval, 4);
                assert(eval(g, t, 0) is Missing);
                assert(!p.complete());
            }
        }
        MockProver::from_parts(p)
    }

    /// The same circuit with its witnesses cleared.
    pub fn without_witnesses(&self) -> (r: MyCircuit)
        ensures
            r.scalar@ == 0,
            r.value@ == 0,
            r.nrows == 0,
    {
        MyCircuit { scalar: Fe::zero(), value: Fe::zero(), nrows: 0 }
    }
}

impl Circuit for MyCircuit {
    type Config = AddScalarConfig;

    fn configure(cs: &mut ConstraintSystem) -> (config: AddScalarConfig)
        ensures
            config == add_scalar_config(old(cs).shape()),
            final(cs).shape() == add_scalar_layout(old(cs).shape()),
    {
        AddScalarChip::configure(cs)
    }

    /// Fills the running sum in a new region and binds its last cell to
    /// public input 0.
    fn synthesize(&self, config: &AddScalarConfig, layouter: &mut Layouter) -> (r: Result<(), Error>)
        ensures
            ({
                let l = *old(layouter);
                let start = l.cursor() as int;
                let top = if self.nrows > 1 { self.nrows as int } else { 1 };
                let chip = AddScalarChip { config: *config };
                &&& chip.fits(l) && l.equality_enabled(config.advice) && l.equality_enabled(config.instance)
                    && config.instance.kind == ColumnKind::Instance && l.table.has_column(config.instance)
                    && start + top < l.table.rows ==> r is Ok
                &&& r is Ok ==> {
                    &&& start + top < l.table.rows
                    &&& final(layouter).table.cell(config.advice, start) == Resolved::Known(self.scalar@)
                    &&& forall|i: int| 1 <= i <= top ==> #[trigger] final(layouter).table.cell(config.advice, start + i)
                        == Resolved::Known(running(self.value@, self.scalar@, (i - 1) as nat))
                    &&& final(layouter).table.cell(Column { kind: ColumnKind::Fixed, index: config.selector.column }, start)
                        == Resolved::Known(1)
                    &&& final(layouter).publics@ == l.publics@.push(
                        PublicBinding {
                            cell: CellRef { column: config.advice, row: (start + top) as usize },
                            instance: CellRef { column: config.instance, row: 0 },
                        },
                    )
                }
                &&& forall|c: Column, row: int|
                    !assign_writes(*config, start, top, c, row) ==> #[trigger] final(layouter).table.cell(c, row)
                        == l.table.cell(c, row)
                &&& final(layouter).copies == l.copies
            }),
    {
        let chip = AddScalarChip::construct(*config);
        let out = match chip.assign(self.value, self.scalar, self.nrows, layouter) {
            Ok(c) => c,
            Err(e) => {
                return Err(e);
            },
        };
        chip.expose_public(layouter, &out, 0)
    }
}

} // verus!
