//! A Fibonacci-style recurrence over three advice columns: on every row
//! where the selector is on, `a + b = c`. The first row is seeded from two
//! public inputs, each later row copies `b` and `c` of the row before into
//! its `a` and `b`.

use crate::constraint_system::{lemma_fresh_not_enabled, views_of, ConstraintSystem, FixedUse, Selector, Shape};
use crate::error::Error;
use crate::expression::{all_columns, eval, expr_view, lemma_eval_by_view, Expression, Rotation};
use crate::layout::{copy_clean, copy_settled, written_value, AssignedCell, CopyConstraint, Layouter, PublicBinding};
use crate::prover::{instances_fit, lemma_copies_clean, lemma_single_gate_rows_clean, table_rows, Circuit, Fault, MockProver};
use crate::table::{CellRef, Column, ColumnKind, Table};
use crate::field::modulus;
use crate::value::{add_resolved, lemma_add_neg, lemma_add_neg_zero, neg_resolved, sum_of, Resolved};
use crate::field::Fe;
use vstd::arithmetic::power2::pow2;
use vstd::prelude::*;

verus! {

#[derive(Clone, Copy, Debug, PartialEq, Eq)]
pub struct FibonacciConfig {
    pub advice: [Column; 3],
    pub selector: Selector,
    pub instance: Column,
}

#[derive(Clone, Copy, Debug, PartialEq, Eq)]
pub struct FibonacciChip {
    pub config: FibonacciConfig,
}

/// The constraint of the `add` gate: `s * (a + b - c)` on the current row.
pub open spec fn fib_gate(c: FibonacciConfig) -> Expression {
    Expression::Product(
        Box::new(Expression::Cell(Column { kind: ColumnKind::Fixed, index: c.selector.column }, Rotation(0))),
        Box::new(Expression::Sum(
            Box::new(Expression::Sum(
                Box::new(Expression::Cell(c.advice[0], Rotation(0))),
                Box::new(Expression::Cell(c.advice[1], Rotation(0))),
            )),
            Box::new(Expression::Negated(Box::new(Expression::Cell(c.advice[2], Rotation(0))))),
        )),
    )
}

pub open spec fn fib_config(s: Shape) -> FibonacciConfig {
    FibonacciConfig {
        advice: [
            Column { kind: ColumnKind::Advice, index: s.num_advice as usize },
            Column { kind: ColumnKind::Advice, index: (s.num_advice + 1) as usize },
            Column { kind: ColumnKind::Advice, index: (s.num_advice + 2) as usize },
        ],
        selector: Selector { column: s.fixed.len() as usize, complex: false },
        instance: Column { kind: ColumnKind::Instance, index: s.num_instance as usize },
    }
}

/// The registry after `configure`.
pub open spec fn fib_layout(s: Shape) -> Shape {
    let c = fib_config(s);
    Shape {
        num_advice: s.num_advice + 3,
        num_instance: s.num_instance + 1,
        fixed: s.fixed.push(FixedUse::Selector),
        equality: s.equality.push(c.advice[0]).push(c.advice[1]).push(c.advice[2]).push(c.instance),
        gates: s.gates.push(("add"@, seq![expr_view(fib_gate(c))])),
        ..s
    }
}

impl FibonacciChip {
    pub fn construct(config: FibonacciConfig) -> (r: FibonacciChip)
        ensures
            r.config == config,
    {
        FibonacciChip { config }
    }

    /// Declares three advice columns, a selector and an instance column,
    /// enables equality on all four columns and adds the `add` gate.
    pub fn configure(cs: &mut ConstraintSystem) -> (c: FibonacciConfig)
        requires
            old(cs).wf(),
            old(cs).num_advice < usize::MAX - 3,
            old(cs).num_instance < usize::MAX,
            old(cs).fixed@.len() < usize::MAX,
        ensures
            final(cs).wf(),
            c == fib_config(old(cs).shape()),
            final(cs).shape() == fib_layout(old(cs).shape()),
    {
        let ghost s = cs.shape();
        let ghost s0 = *cs;
        let a = cs.advice_column();
        let b = cs.advice_column();
        let c = cs.advice_column();
        let selector = cs.selector();
        let instance = cs.instance_column();
        proof {
            lemma_fresh_not_enabled(s0, a);
            assert(!cs.equality@.contains(a));
        }
        let _ = cs.enable_equality(a);
        proof {
            lemma_fresh_not_enabled(s0, b);
            assert(!cs.equality@.contains(b));
        }
        let _ = cs.enable_equality(b);
        proof {
            lemma_fresh_not_enabled(s0, c);
            assert(!cs.equality@.contains(c));
        }
        let _ = cs.enable_equality(c);
        proof {
            lemma_fresh_not_enabled(s0, instance);
            assert(!cs.equality@.contains(instance));
        }
        let _ = cs.enable_equality(instance);
        let config = FibonacciConfig { advice: [a, b, c], selector, instance };
        let s_q = cs.query_selector(selector);
        let a_q = cs.query_advice(a, Rotation::cur());
        let b_q = cs.query_advice(b, Rotation::cur());
        let c_q = cs.query_advice(c, Rotation::cur());
        let gate = s_q.mul(a_q.add(b_q).sub(c_q));
        proof {
            assert(config == fib_config(s));
            assert(gate == fib_gate(config));
            reveal_with_fuel(all_columns, 6);
            assert(cs.gate_ok(gate));
        }
        let ghost before_gate = *cs;
        let ghost g = gate;
        let mut constraints: Vec<Expression> = Vec::new();
        constraints.push(gate);
        let ghost cv = constraints@;
        assert(cv =~= seq![g]);
        let _ = cs.create_gate("add".to_owned(), constraints);
        proof {
            assert(views_of(cv) =~= seq![expr_view(g)]);
            assert(cs.shape().gates =~= fib_layout(s).gates);
            assert(cs.shape().fixed =~= fib_layout(s).fixed);
            assert(cs.shape().equality =~= fib_layout(s).equality);
            assert(cs.shape().lookups =~= fib_layout(s).lookups);
        }
        config
    }

    /// The config's columns exist in the layouter's table with their kinds.
    pub open spec fn fits(self, l: Layouter) -> bool {
        &&& forall|i: int| 0 <= i < 3 ==> (#[trigger] self.config.advice[i]).kind == ColumnKind::Advice
            && l.table.has_column(self.config.advice[i])
        &&& l.table.has_column(Column { kind: ColumnKind::Fixed, index: self.config.selector.column })
        &&& self.config.instance.kind == ColumnKind::Instance
        &&& self.config.advice[0] != self.config.advice[1]
        &&& self.config.advice[0] != self.config.advice[2]
        &&& self.config.advice[1] != self.config.advice[2]
    }

    /// The cells that a one-row region at `start` may write: the selector
    /// and the three advice columns on that row.
    pub open spec fn row_writes(self, start: int, c: Column, row: int) -> bool {
        &&& row == start
        &&& (c == (Column { kind: ColumnKind::Fixed, index: self.config.selector.column }) || c == self.config.advice[0]
            || c == self.config.advice[1] || c == self.config.advice[2])
    }

    /// Fitting and taking part in copy constraints depend only on the shape
    /// of the table and on the equality-enabled columns.
    pub proof fn lemma_fits_kept(self, l0: Layouter, l1: Layouter)
        requires
            self.fits(l0),
            l0.same_shape(l1),
            l1.equality == l0.equality,
        ensures
            self.fits(l1),
            self.copyable(l0) ==> self.copyable(l1),
    {
        assert(l1.table.columns(ColumnKind::Advice).len() == l0.table.columns(ColumnKind::Advice).len());
        assert(l1.table.columns(ColumnKind::Fixed).len() == l0.table.columns(ColumnKind::Fixed).len());
        assert forall|i: int| 0 <= i < 3 implies (#[trigger] self.config.advice[i]).kind == ColumnKind::Advice
            && l1.table.has_column(self.config.advice[i]) by {
            assert(l0.table.has_column(self.config.advice[i]));
        }
    }

    /// Row `row` holds term `j` of the recurrence in `a`, `j + 1` in `b` and
    /// `j + 2` in `c`, with the selector on.
    pub open spec fn fib_row(self, t: Table, row: int, j: int, x: nat, y: nat) -> bool {
        &&& t.cell(Column { kind: ColumnKind::Fixed, index: self.config.selector.column }, row) == Resolved::Known(1)
        &&& t.cell(self.config.advice[0], row) == Resolved::Known(fib_term(x, y, j as nat))
        &&& t.cell(self.config.advice[1], row) == Resolved::Known(fib_term(x, y, (j + 1) as nat))
        &&& t.cell(self.config.advice[2], row) == Resolved::Known(fib_term(x, y, (j + 2) as nat))
    }

    /// Rows `start` to `start + n - 1` hold the recurrence seeded with `x`
    /// and `y`.
    pub open spec fn fib_rows(self, t: Table, start: int, n: int, x: nat, y: nat) -> bool {
        forall|j: int| 0 <= j < n ==> #[trigger] self.fib_row(t, start + j, j, x, y)
    }

    /// What synthesis leaves from `l` to `f`, seeded with `x` and `y`: `n`
    /// rows of the recurrence from `start`, the earlier copy constraints
    /// kept, and `2 * n` new ones, each between cells holding the same
    /// known value.
    pub open spec fn fib_filled(self, l: Layouter, f: Layouter, start: int, n: int, x: nat, y: nat) -> bool {
        &&& self.fib_rows(f.table, start, n, x, y)
        &&& f.copies@.len() == l.copies@.len() + 2 * n
        &&& forall|k: int| 0 <= k < l.copies@.len() ==> #[trigger] f.copies@[k] == l.copies@[k]
        &&& forall|k: int| l.copies@.len() <= k < f.copies@.len() ==> copy_clean(f.table, #[trigger] f.copies@[k])
            && copy_settled(f.copies@[k], start + n)
    }

    /// The cells that `n` one-row regions from `start` on may write.
    pub open spec fn block_writes(self, start: int, n: int, c: Column, row: int) -> bool {
        &&& start <= row < start + n
        &&& (c == (Column { kind: ColumnKind::Fixed, index: self.config.selector.column }) || c == self.config.advice[0]
            || c == self.config.advice[1] || c == self.config.advice[2])
    }

    /// Each of the config's columns takes part in copy constraints.
    pub open spec fn copyable(self, l: Layouter) -> bool {
        &&& forall|i: int| 0 <= i < 3 ==> l.equality_enabled(#[trigger] self.config.advice[i])
        &&& l.equality_enabled(self.config.instance)
    }

    /// Opens a region of one row: `a` and `b` are copied from public inputs
    /// 0 and 1, `c` holds their sum, and the selector is on.
    pub fn assign_initial_values(&self, layouter: &mut Layouter) -> (r: Result<(AssignedCell, AssignedCell, AssignedCell), Error>)
        requires
            old(layouter).wf(),
        ensures
            final(layouter).wf(),
            old(layouter).same_shape(*final(layouter)),
            old(layouter).keeps_instances(*final(layouter)),
            forall|c: Column, row: int|
                !self.row_writes(old(layouter).cursor() as int, c, row) ==> #[trigger] final(layouter).table.cell(c, row)
                    == old(layouter).table.cell(c, row),
            final(layouter).regions@.drop_last() == old(layouter).regions@,
            final(layouter).regions@.len() == old(layouter).regions@.len() + 1,
            final(layouter).regions@.last().start == old(layouter).cursor(),
            final(layouter).regions@.last().name@ == "initial values"@,
            r is Ok ==> final(layouter).regions@.last().len == 1,
            r is Ok ==> old(layouter).cursor() < old(layouter).table.rows,
            final(layouter).equality == old(layouter).equality,
            final(layouter).publics == old(layouter).publics,
            ({
                let l = *old(layouter);
                let start = l.cursor();
                let inst0 = CellRef { column: self.config.instance, row: 0 };
                let inst1 = CellRef { column: self.config.instance, row: 1 };
                &&& self.fits(l) && self.copyable(l) && start < l.table.rows && 1 < l.table.rows
                    && !(l.table.cell(inst0.column, 0) is Missing) && !(l.table.cell(inst1.column, 1) is Missing)
                    ==> r is Ok
                &&& self.fits(l) ==> (r matches Ok((a, b, c)) ==> {
                    &&& a.cell == (CellRef { column: self.config.advice[0], row: start as usize })
                    &&& b.cell == (CellRef { column: self.config.advice[1], row: start as usize })
                    &&& c.cell == (CellRef { column: self.config.advice[2], row: start as usize })
                    &&& written_value(a.value) == l.table.cell(inst0.column, 0)
                    &&& written_value(b.value) == l.table.cell(inst1.column, 1)
                    &&& c.value@ == sum_of(a.value@, b.value@)
                    &&& final(layouter).copies@ == l.copies@.push(CopyConstraint { left: inst0, right: a.cell }).push(
                        CopyConstraint { left: inst1, right: b.cell },
                    )
                    &&& final(layouter).table.cell(Column { kind: ColumnKind::Fixed, index: self.config.selector.column }, start as int)
                        == Resolved::Known(1)
                    &&& final(layouter).table.cell(a.cell.column, start as int) == written_value(a.value)
                    &&& final(layouter).table.cell(b.cell.column, start as int) == written_value(b.value)
                    &&& final(layouter).table.cell(c.cell.column, start as int) == written_value(c.value)
                })
            }),
    {
        let ghost l = *layouter;
        let ghost start = layouter.cursor();
        let sel_col = Column { kind: ColumnKind::Fixed, index: self.config.selector.column };
        layouter.assign_region("initial values".to_owned());
        assert(layouter.regions@.drop_last() =~= old(layouter).regions@);
        match layouter.enable_selector(self.config.selector, 0) {
            Ok(()) => {},
            Err(e) => {
                return Err(e);
            },
        }
        proof {
            if self.fits(l) && self.copyable(l) {
                assert(self.config.advice[0].kind == ColumnKind::Advice && l.table.has_column(self.config.advice[0]));
                assert(self.config.advice[1].kind == ColumnKind::Advice && l.table.has_column(self.config.advice[1]));
                assert(self.config.advice[2].kind == ColumnKind::Advice && l.table.has_column(self.config.advice[2]));
                assert(l.equality_enabled(self.config.advice[0]));
                assert(l.equality_enabled(self.config.advice[1]));
            }
        }
        let ghost l1 = *layouter;
        let a_cell = match layouter.assign_advice_from_instance(self.config.instance, 0, self.config.advice[0], 0) {
            Ok(c) => c,
            Err(e) => {
                return Err(e);
            },
        };
        let ghost l2 = *layouter;
        let b_cell = match layouter.assign_advice_from_instance(self.config.instance, 1, self.config.advice[1], 0) {
            Ok(c) => c,
            Err(e) => {
                return Err(e);
            },
        };
        let ghost l3 = *layouter;
        let c_cell = match layouter.assign_advice(self.config.advice[2], 0, a_cell.value().add(&b_cell.value())) {
            Ok(c) => c,
            Err(e) => {
                return Err(e);
            },
        };
        proof {
            assert(l1.table.cell(self.config.instance, 0) == l.table.cell(self.config.instance, 0));
            assert(l2.table.cell(self.config.instance, 1) == l.table.cell(self.config.instance, 1));
        }
        Ok((a_cell, b_cell, c_cell))
    }

    /// Opens a region of one row: `a` and `b` are copies of `prev_b` and
    /// `prev_c`, `c` holds their sum, and the selector is on.
    pub fn assign_row(&self, layouter: &mut Layouter, prev_b: &AssignedCell, prev_c: &AssignedCell) -> (r: Result<AssignedCell, Error>)
        requires
            old(layouter).wf(),
        ensures
            final(layouter).wf(),
            old(layouter).same_shape(*final(layouter)),
            old(layouter).keeps_instances(*final(layouter)),
            forall|c: Column, row: int|
                !self.row_writes(old(layouter).cursor() as int, c, row) ==> #[trigger] final(layouter).table.cell(c, row)
                    == old(layouter).table.cell(c, row),
            final(layouter).regions@.drop_last() == old(layouter).regions@,
            final(layouter).regions@.len() == old(layouter).regions@.len() + 1,
            final(layouter).regions@.last().start == old(layouter).cursor(),
            final(layouter).regions@.last().name@ == "next row"@,
            r is Ok ==> final(layouter).regions@.last().len == 1,
            r is Ok ==> old(layouter).cursor() < old(layouter).table.rows,
            final(layouter).equality == old(layouter).equality,
            final(layouter).publics == old(layouter).publics,
            ({
                let l = *old(layouter);
                let start = l.cursor();
                &&& self.fits(l) && self.copyable(l) && start < l.table.rows && l.copy_fault(prev_b.cell) is None
                    && l.copy_fault(prev_c.cell) is None ==> r is Ok
                &&& self.fits(l) ==> (r matches Ok(c) ==> {
                    let a = CellRef { column: self.config.advice[0], row: start as usize };
                    let b = CellRef { column: self.config.advice[1], row: start as usize };
                    &&& c.cell == (CellRef { column: self.config.advice[2], row: start as usize })
                    &&& c.value@ == sum_of(prev_b.value@, prev_c.value@)
                    &&& final(layouter).copies@ == l.copies@.push(CopyConstraint { left: prev_b.cell, right: a }).push(
                        CopyConstraint { left: prev_c.cell, right: b },
                    )
                    &&& final(layouter).table.cell(Column { kind: ColumnKind::Fixed, index: self.config.selector.column }, start as int)
                        == Resolved::Known(1)
                    &&& final(layouter).table.cell(a.column, start as int) == written_value(prev_b.value)
                    &&& final(layouter).table.cell(b.column, start as int) == written_value(prev_c.value)
                    &&& final(layouter).table.cell(c.cell.column, start as int) == written_value(c.value)
                })
            }),
    {
        let ghost l = *layouter;
        layouter.assign_region("next row".to_owned());
        assert(layouter.regions@.drop_last() =~= old(layouter).regions@);
        match layouter.enable_selector(self.config.selector, 0) {
            Ok(()) => {},
            Err(e) => {
                return Err(e);
            },
        }
        proof {
            if self.fits(l) && self.copyable(l) {
                assert(self.config.advice[0].kind == ColumnKind::Advice && l.table.has_column(self.config.advice[0]));
                assert(self.config.advice[1].kind == ColumnKind::Advice && l.table.has_column(self.config.advice[1]));
                assert(self.config.advice[2].kind == ColumnKind::Advice && l.table.has_column(self.config.advice[2]));
                assert(l.equality_enabled(self.config.advice[0]));
                assert(l.equality_enabled(self.config.advice[1]));
            }
        }
        match layouter.copy_advice(prev_b, self.config.advice[0], 0) {
            Ok(_) => {},
            Err(e) => {
                return Err(e);
            },
        }
        match layouter.copy_advice(prev_c, self.config.advice[1], 0) {
            Ok(_) => {},
            Err(e) => {
                return Err(e);
            },
        }
        layouter.assign_advice(self.config.advice[2], 0, prev_b.value().add(&prev_c.value()))
    }

    /// Binds `cell` to row `row` of the instance column.
    pub fn expose_public(&self, layouter: &mut Layouter, cell: &AssignedCell, row: usize) -> (r: Result<(), Error>)
        requires
            old(layouter).wf(),
        ensures
            final(layouter).wf(),
            old(layouter).same_shape(*final(layouter)),
            old(layouter).keeps_instances(*final(layouter)),
            final(layouter).table == old(layouter).table,
            final(layouter).copies == old(layouter).copies,
            final(layouter).regions == old(layouter).regions,
            final(layouter).equality == old(layouter).equality,
            r is Ok ==> final(layouter).publics@ == old(layouter).publics@.push(
                PublicBinding { cell: cell.cell, instance: CellRef { column: self.config.instance, row } },
            ),
            r is Ok <==> self.config.instance.kind == ColumnKind::Instance
                && old(layouter).copy_fault(cell.cell) is None
                && old(layouter).copy_fault(CellRef { column: self.config.instance, row }) is None,
    {
        layouter.constrain_instance(cell.cell, self.config.instance, row)
    }
}

/// Configuring two registries of the same shape yields registries of the
/// same shape: the same columns, gates and lookups, in the same order.
pub proof fn lemma_configure_deterministic(a0: ConstraintSystem, a1: ConstraintSystem, b0: ConstraintSystem, b1: ConstraintSystem)
    requires
        a0.shape() == b0.shape(),
        a1.shape() == fib_layout(a0.shape()),
        b1.shape() == fib_layout(b0.shape()),
    ensures
        a1.shape() == b1.shape(),
        fib_config(a0.shape()) == fib_config(b0.shape()),
{
}

/// The recurrence circuit: seeds `a` and `b` from public inputs 0 and 1,
/// adds seven more rows, and binds the last sum to public input 2.
#[derive(Clone, Copy, Debug, PartialEq, Eq, Default)]
pub struct MyCircuit;

/// Public input `i` of the first column, or zero when absent.
pub open spec fn public_at(instance: Seq<Vec<Fe>>, i: int) -> nat {
    if instance.len() > 0 && i < instance[0]@.len() {
        instance[0]@[i]@
    } else {
        0
    }
}

impl MyCircuit {
    pub fn without_witnesses(&self) -> (r: MyCircuit) {
        MyCircuit
    }

    /// Runs the mock verifier on the recurrence with a table of `2^k` rows
    /// and the given public inputs. The run succeeds exactly when `k` is at
    /// most 28, there is one public-input column no longer than the table,
    /// and the table has at least eight rows. Then, with `x`, `y` and `out`
    /// the public inputs 0, 1 and 2 (zero when absent), the table is
    /// satisfied exactly when `out` is the tenth term of the recurrence
    /// seeded with `x` and `y`, and otherwise the one fault is the `Public`
    /// binding of the last sum.
    pub fn mock_run(&self, k: u32, instance: Vec<Vec<Fe>>) -> (r: Result<MockProver, Error>)
        ensures
            k > 28 ==> r == Err::<MockProver, Error>(Error::TooManyRows),
            k <= 28 ==> (r is Ok <==> instance@.len() == 1 && instance@[0]@.len() <= pow2(k as nat) && 8 <= pow2(
                k as nat,
            )),
            r matches Ok(p) ==> {
                let term = fib_term(public_at(instance@, 0), public_at(instance@, 1), 9);
                &&& p.wf()
                &&& p.k == k
                &&& p.table().rows == pow2(k as nat)
                &&& p.complete()
                &&& (public_at(instance@, 2) == term ==> p.faults() == Seq::<Fault>::empty())
                &&& (public_at(instance@, 2) != term ==> p.faults() == seq![
                    Fault::Public { binding: p.layout.publics@[0] },
                ])
            },
    {
        if k > 28 {
            return Err(Error::TooManyRows);
        }
        let rows = table_rows(k);
        let mut cs = ConstraintSystem::new();
        let ghost s0 = cs.shape();
        let config = <MyCircuit as Circuit>::configure(&mut cs);
        proof {
            let s1 = cs.shape();
            assert(s0.fixed =~= Seq::<FixedUse>::empty());
            assert(s0.equality =~= Seq::<Column>::empty());
            assert(cs.num_instance == 1 && cs.num_advice == 3 && cs.fixed@.len() == 1);
            assert(cs.fixed@ == s1.fixed);
            assert(cs.fixed@[0] == FixedUse::Selector);
            assert(cs.equality@ == s1.equality);
            assert(s1.gates.len() == 1);
            assert(s1.gates[0] == (cs.gates@[0].name@, views_of(cs.gates@[0].constraints@)));
            assert(s1.lookups.len() == 0);
            assert(config == fib_config(s0));
            assert(views_of(cs.gates@[0].constraints@) == seq![expr_view(fib_gate(config))]);
            assert(views_of(cs.gates@[0].constraints@).len() == 1);
            assert(cs.gates@[0].constraints@.len() == 1);
            assert(views_of(cs.gates@[0].constraints@)[0] == expr_view(cs.gates@[0].constraints@[0]));
        }
        if !instances_fit(&instance, cs.num_instance, rows) {
            return Err(Error::InvalidInstances);
        }
        let mut layout = Layouter::new(rows, &cs, &instance);
        let ghost l0 = layout;
        let sel = Column { kind: ColumnKind::Fixed, index: config.selector.column };
        let ghost x = public_at(instance@, 0);
        let ghost y = public_at(instance@, 1);
        let ghost out = public_at(instance@, 2);
        let ghost chip = FibonacciChip { config };
        proof {
            assert(l0.cursor() == 0);
            assert forall|i: int| 0 <= i < 3 implies (#[trigger] config.advice[i]).kind == ColumnKind::Advice
                && l0.table.has_column(config.advice[i]) by {}
            assert(l0.table.has_column(sel));
            assert(l0.table.has_column(config.instance));
            assert(chip.fits(l0));
            assert(l0.equality@[0] == config.advice[0]);
            assert(l0.equality@[1] == config.advice[1]);
            assert(l0.equality@[2] == config.advice[2]);
            assert(l0.equality@[3] == config.instance);
            assert forall|i: int| 0 <= i < 3 implies l0.equality_enabled(#[trigger] config.advice[i]) by {
                assert(l0.equality@[i] == config.advice[i]);
            }
            assert(chip.copyable(l0));
            if rows > 1 {
                assert(l0.table.cell(config.instance, 0) == Resolved::Known(x));
                assert(l0.table.cell(config.instance, 1) == Resolved::Known(y));
            }
        }
        match self.synthesize(&config, &mut layout) {
            Ok(()) => {},
            Err(e) => {
                return Err(e);
            },
        }
        let ghost l1 = layout;
        proof {
            assert(l1.table.columns(ColumnKind::Advice).len() == 3);
            assert(l1.table.columns(ColumnKind::Fixed).len() == 1);
            assert(l1.table.columns(ColumnKind::Instance).len() == 1);
            assert(l1.table.columns(ColumnKind::Table).len() == 0);
        }
        let p = MockProver { k, cs, layout };
        proof {
            let t = p.table();
            let g = fib_gate(config);
            assert(expr_view(p.constraint(0, 0)) == expr_view(g));
            assert(l0.table.cell(config.instance, 0) == Resolved::Known(x));
            assert(l0.table.cell(config.instance, 1) == Resolved::Known(y));
            assert(chip.fib_filled(l0, l1, 0, 8, x, y));
            assert(t.cell(config.instance, 2) == l0.table.cell(config.instance, 2));
            assert(t.cell(config.instance, 2) == Resolved::Known(out));
            assert forall|row: int| 0 <= row < t.rows && !(0 <= row < 0 + 8) implies #[trigger] t.cell(sel, row)
                == Resolved::Known(0) by {
                assert(!chip.block_writes(0, 8, sel, row));
            }
            assert(l0.copies@.len() == 0);
            assert forall|kk: int| 0 <= kk < p.layout.copies@.len() implies copy_clean(t, #[trigger] p.layout.copies@[kk]) by {}
            assert(l0.publics@ =~= Seq::<PublicBinding>::empty());
            assert(p.layout.publics@ =~= seq![
                PublicBinding {
                    cell: CellRef { column: config.advice[2], row: (0 + 7) as usize },
                    instance: CellRef { column: config.instance, row: 2 },
                },
            ]);
            lemma_fibonacci_verdict(p, config, 0, x, y, out);
            assert forall|g0: int, c: int, row: int|
                0 <= g0 < p.cs.gates@.len() && 0 <= c < p.cs.gates@[g0].constraints@.len() && 0 <= row < t.rows
                    implies !(#[trigger] eval(p.constraint(g0, c), t, row) is Missing) by {
                lemma_eval_by_view(p.constraint(0, 0), g, t, row);
                if 0 <= row < 8 {
                    assert(chip.fib_row(t, 0 + row, row, x, y));
                    let a = fib_term(x, y, row as nat);
                    let b = fib_term(x, y, (row + 1) as nat);
                    assert(fib_term(x, y, (row + 2) as nat) == (b + a) % modulus());
                    lemma_fib_gate_holds(config, t, row, a, b);
                } else {
                    reveal_with_fuel(eval, 2);
                }
            }
            assert(p.complete());
        }
        MockProver::from_parts(p)
    }
}

impl Circuit for MyCircuit {
    type Config = FibonacciConfig;

    fn configure(cs: &mut ConstraintSystem) -> (config: FibonacciConfig)
        ensures
            config == fib_config(old(cs).shape()),
            final(cs).shape() == fib_layout(old(cs).shape()),
    {
        FibonacciChip::configure(cs)
    }

    /// Fills eight one-row regions with the recurrence seeded from public
    /// inputs 0 and 1, and binds the last sum to public input 2.
    fn synthesize(&self, config: &FibonacciConfig, layouter: &mut Layouter) -> (r: Result<(), Error>)
        ensures
            ({
                let l = *old(layouter);
                let start = l.cursor() as int;
                let chip = FibonacciChip { config: *config };
                let inst = config.instance;
                let last = CellRef { column: config.advice[2], row: (start + 7) as usize };
                &&& chip.fits(l) && chip.copyable(l) && start + 7 < l.table.rows && !(l.table.cell(inst, 0) is Missing)
                    && !(l.table.cell(inst, 1) is Missing) ==> r is Ok
                &&& r is Ok ==> start + 7 < l.table.rows
                &&& chip.fits(l) && r is Ok ==> final(layouter).publics@ == l.publics@.push(
                    PublicBinding { cell: last, instance: CellRef { column: inst, row: 2 } },
                )
                &&& forall|x: nat, y: nat|
                    chip.fits(l) && r is Ok && l.table.cell(inst, 0) == Resolved::Known(x) && l.table.cell(inst, 1)
                        == Resolved::Known(y) ==> #[trigger] final(layouter).table.cell(last.column, last.row as int)
                        == Resolved::Known(fib_term(x, y, 9))
                &&& forall|x: nat, y: nat|
                    chip.fits(l) && r is Ok && l.table.cell(inst, 0) == Resolved::Known(x) && l.table.cell(inst, 1)
                        == Resolved::Known(y) ==> #[trigger] chip.fib_filled(l, *final(layouter), start, 8, x, y)
                &&& forall|c: Column, row: int|
                    !chip.block_writes(start, 8, c, row) ==> #[trigger] final(layouter).table.cell(c, row)
                        == l.table.cell(c, row)
            }),
    {
        let ghost l = *layouter;
        let ghost start = layouter.cursor() as int;
        let ghost inst = config.instance;
        let ghost known = l.table.cell(inst, 0) is Known && l.table.cell(inst, 1) is Known;
        let ghost x = match l.table.cell(inst, 0) {
            Resolved::Known(v) => v,
            _ => 0,
        };
        let ghost y = match l.table.cell(inst, 1) {
            Resolved::Known(v) => v,
            _ => 0,
        };
        let chip = FibonacciChip::construct(*config);
        let ghost fits = chip.fits(l);
        let (_, b, c) = match chip.assign_initial_values(layouter) {
            Ok(cells) => cells,
            Err(e) => {
                return Err(e);
            },
        };
        proof {
            if fits && known {
                assert(fib_term(x, y, 0) == x);
                assert(fib_term(x, y, 1) == y);
                assert(fib_term(x, y, 2) == (x + y) % modulus());
            }
        }
        let mut prev_b = b;
        let mut prev_c = c;
        let mut i: usize = 3;
        while i < 10
            invariant
                3 <= i <= 10,
                layouter.wf(),
                old(layouter).same_shape(*layouter),
                old(layouter).keeps_instances(*layouter),
                l == *old(layouter),
                start == l.cursor(),
                known == (l.table.cell(inst, 0) is Known && l.table.cell(inst, 1) is Known),
                inst == config.instance,
                chip.config == *config,
                fits == chip.fits(l),
                layouter.equality == l.equality,
                layouter.publics == l.publics,
                layouter.cursor() == start + i - 2,
                start + i - 3 < l.table.rows,
                forall|c: Column, row: int|
                    !chip.block_writes(start, i - 2, c, row) ==> #[trigger] layouter.table.cell(c, row)
                        == l.table.cell(c, row),
                fits ==> prev_c.cell == (CellRef { column: config.advice[2], row: (start + i - 3) as usize }),
                fits ==> prev_b.cell.column == config.advice[1] || prev_b.cell.column == config.advice[2],
                fits ==> prev_b.cell.row < start + i - 2,
                fits ==> layouter.table.cell(prev_c.cell.column, prev_c.cell.row as int) == written_value(prev_c.value),
                fits && known ==> prev_b.value@ == Some(fib_term(x, y, (i - 2) as nat)),
                fits && known ==> prev_c.value@ == Some(fib_term(x, y, (i - 1) as nat)),
                fits ==> layouter.table.cell(prev_b.cell.column, prev_b.cell.row as int) == written_value(prev_b.value),
                fits && known ==> chip.fib_filled(l, *layouter, start, i - 2, x, y),
            decreases 10 - i,
        {
            let ghost before = *layouter;
            proof {
                if fits {
                    chip.lemma_fits_kept(l, *layouter);
                    if chip.copyable(l) {
                        assert(layouter.equality_enabled(config.advice[1]));
                        assert(layouter.equality_enabled(config.advice[2]));
                        assert(layouter.table.has_column(config.advice[1]));
                        assert(layouter.table.has_column(config.advice[2]));
                    }
                }
            }
            let c_cell = match chip.assign_row(layouter, &prev_b, &prev_c) {
                Ok(cell) => cell,
                Err(e) => {
                    proof {
                        assert forall|c: Column, row: int|
                            !chip.block_writes(start, 8, c, row) implies #[trigger] layouter.table.cell(c, row)
                                == l.table.cell(c, row) by {
                            assert(!chip.row_writes(before.cursor() as int, c, row));
                            assert(before.table.cell(c, row) == l.table.cell(c, row));
                        }
                    }
                    return Err(e);
                },
            };
            proof {
                assert forall|c: Column, row: int|
                    !chip.block_writes(start, i - 1, c, row) implies #[trigger] layouter.table.cell(c, row)
                        == l.table.cell(c, row) by {
                    assert(!chip.row_writes(before.cursor() as int, c, row));
                    assert(before.table.cell(c, row) == l.table.cell(c, row));
                }
                if fits && known {
                    assert(fib_term(x, y, i as nat) == (fib_term(x, y, (i - 1) as nat) + fib_term(x, y, (i - 2) as nat)) % modulus());
                    let rw = before.cursor() as int;
                    let j = i - 2;
                    let t = layouter.table;
                    assert(chip.fib_row(t, rw, j as int, x, y));
                    assert forall|jj: int| 0 <= jj < j + 1 implies #[trigger] chip.fib_row(t, start + jj, jj, x, y) by {
                        if jj < j {
                            assert(chip.fib_row(before.table, start + jj, jj, x, y));
                            let sel = Column { kind: ColumnKind::Fixed, index: config.selector.column };
                            assert(!chip.row_writes(rw, sel, start + jj));
                            assert(!chip.row_writes(rw, config.advice[0], start + jj));
                            assert(!chip.row_writes(rw, config.advice[1], start + jj));
                            assert(!chip.row_writes(rw, config.advice[2], start + jj));
                        }
                    }
                    let lb = before.copies@.len();
                    assert forall|k: int| l.copies@.len() <= k < layouter.copies@.len() implies copy_clean(t, #[trigger] layouter.copies@[k])
                        && copy_settled(layouter.copies@[k], start + j + 1) by {
                        let cc = layouter.copies@[k];
                        if k < lb {
                            assert(cc == before.copies@[k]);
                            assert(copy_clean(before.table, cc) && copy_settled(cc, rw));
                            if cc.left.column.kind != ColumnKind::Instance {
                                assert(!chip.row_writes(rw, cc.left.column, cc.left.row as int));
                            }
                            if cc.right.column.kind != ColumnKind::Instance {
                                assert(!chip.row_writes(rw, cc.right.column, cc.right.row as int));
                            }
                        } else {
                            assert(!chip.row_writes(rw, prev_b.cell.column, prev_b.cell.row as int));
                            assert(!chip.row_writes(rw, prev_c.cell.column, prev_c.cell.row as int));
                        }
                    }
                    assert forall|k: int| 0 <= k < l.copies@.len() implies #[trigger] layouter.copies@[k] == l.copies@[k] by {
                        assert(before.copies@[k] == l.copies@[k]);
                    }
                }
            }
            prev_b = prev_c;
            prev_c = c_cell;
            i = i + 1;
        }
        chip.expose_public(layouter, &prev_c, 2)
    }
}

/// On a row where the selector is on, `a` and `b` hold values and `c` their
/// sum, the `add` constraint is zero.
pub proof fn lemma_fib_gate_holds(c: FibonacciConfig, t: Table, row: int, a: nat, b: nat)
    requires
        t.cell(Column { kind: ColumnKind::Fixed, index: c.selector.column }, row) == Resolved::Known(1),
        t.cell(c.advice[0], row) == Resolved::Known(a),
        t.cell(c.advice[1], row) == Resolved::Known(b),
        t.cell(c.advice[2], row) == Resolved::Known((a + b) % modulus()),
    ensures
        eval(fib_gate(c), t, row) == Resolved::Known(0),
{
    let p = modulus() as int;
    vstd::arithmetic::div_mod::lemma_mod_bound((a + b) as int, p);
    lemma_add_neg_zero((a + b) % modulus());
    reveal_with_fuel(eval, 4);
}

/// The verdict on a recurrence: with the registry that `configure`
/// declares and a table as `synthesize` leaves it (eight rows of the
/// recurrence seeded with `x` and `y`, the selector off elsewhere, every copy
/// constraint between equal known values, the last sum bound to public input
/// 2), the mock verifier reports nothing when that input is the tenth term,
/// and exactly the one `Public` fault otherwise.
pub proof fn lemma_fibonacci_verdict(p: MockProver, c: FibonacciConfig, start: int, x: nat, y: nat, out: nat)
    requires
        p.cs.gates@.len() == 1,
        p.cs.gates@[0].constraints@.len() == 1,
        expr_view(p.constraint(0, 0)) == expr_view(fib_gate(c)),
        p.cs.lookups@.len() == 0,
        0 <= start,
        start + 8 <= p.table().rows,
        (FibonacciChip { config: c }).fib_rows(p.table(), start, 8, x, y),
        forall|row: int|
            0 <= row < p.table().rows && !(start <= row < start + 8) ==> #[trigger] p.table().cell(
                Column { kind: ColumnKind::Fixed, index: c.selector.column },
                row,
            ) == Resolved::Known(0),
        forall|k: int| 0 <= k < p.layout.copies@.len() ==> copy_clean(p.table(), #[trigger] p.layout.copies@[k]),
        p.layout.publics@ == seq![
            PublicBinding {
                cell: CellRef { column: c.advice[2], row: (start + 7) as usize },
                instance: CellRef { column: c.instance, row: 2 },
            },
        ],
        p.table().cell(c.instance, 2) == Resolved::Known(out),
    ensures
        out == fib_term(x, y, 9) ==> p.faults() == Seq::<Fault>::empty(),
        out != fib_term(x, y, 9) ==> p.faults() == seq![Fault::Public { binding: p.layout.publics@[0] }],
{
    let e = p.constraint(0, 0);
    let g = fib_gate(c);
    let chip = FibonacciChip { config: c };
    let sel = Column { kind: ColumnKind::Fixed, index: c.selector.column };
    assert forall|row: int| 0 <= row < p.table().rows implies !#[trigger] p.gate_fault(0, 0, row) by {
        lemma_eval_by_view(e, g, p.table(), row);
        if start <= row < start + 8 {
            let j = row - start;
            assert(chip.fib_row(p.table(), start + j, j, x, y));
            let a = fib_term(x, y, j as nat);
            let b = fib_term(x, y, (j + 1) as nat);
            assert(fib_term(x, y, (j + 2) as nat) == (b + a) % modulus());
            lemma_fib_gate_holds(c, p.table(), row, a, b);
        } else {
            reveal_with_fuel(eval, 2);
            assert(p.table().cell(sel, row) == Resolved::Known(0));
        }
    }
    lemma_single_gate_rows_clean(p, p.table().rows as int);
    lemma_copies_clean(p, p.layout.copies@.len() as int);
    assert(p.public_faults(0) == Seq::<Fault>::empty());
    let bnd = p.layout.publics@[0];
    assert(chip.fib_row(p.table(), start + 7, 7, x, y));
    if out == fib_term(x, y, 9) {
        assert(p.public_faults(1) =~= Seq::<Fault>::empty());
        assert(p.faults() =~= Seq::<Fault>::empty());
    } else {
        assert(p.public_faults(1) =~= seq![Fault::Public { binding: bnd }]);
        assert(p.faults() =~= seq![Fault::Public { binding: bnd }]);
    }
}

/// Seeded with one and one, the tenth term is 55.
pub proof fn lemma_fib_tenth_term()
    ensures
        fib_term(1, 1, 9) == 55,
{
    reveal_with_fuel(fib_term, 10);
    let p = modulus();
    vstd::arithmetic::div_mod::lemma_small_mod(2, p);
    vstd::arithmetic::div_mod::lemma_small_mod(3, p);
    vstd::arithmetic::div_mod::lemma_small_mod(5, p);
    vstd::arithmetic::div_mod::lemma_small_mod(8, p);
    vstd::arithmetic::div_mod::lemma_small_mod(13, p);
    vstd::arithmetic::div_mod::lemma_small_mod(21, p);
    vstd::arithmetic::div_mod::lemma_small_mod(34, p);
    vstd::arithmetic::div_mod::lemma_small_mod(55, p);
}

/// The `add` constraint at a row, with the selector 0 or 1 and `a`, `b`,
/// `c` known: it is zero exactly when the selector is off or `c` holds
/// `a + b`.
pub proof fn lemma_fib_gate_verdict(c: FibonacciConfig, t: Table, row: int, s: nat, a: nat, b: nat, x: nat)
    requires
        s == 0 || s == 1,
        a < modulus(),
        b < modulus(),
        x < modulus(),
        t.cell(Column { kind: ColumnKind::Fixed, index: c.selector.column }, row) == Resolved::Known(s),
        t.cell(c.advice[0], row) == Resolved::Known(a),
        t.cell(c.advice[1], row) == Resolved::Known(b),
        t.cell(c.advice[2], row) == Resolved::Known(x),
    ensures
        eval(fib_gate(c), t, row) is Known,
        (eval(fib_gate(c), t, row) == Resolved::Known(0)) <==> (s == 0 || (a + b) % modulus() == x),
{
    reveal_with_fuel(eval, 4);
    let sum = (a + b) % modulus();
    vstd::arithmetic::div_mod::lemma_mod_bound((a + b) as int, modulus() as int);
    lemma_add_neg(sum, x);
    let inner = add_resolved(Resolved::Known(sum), neg_resolved(Resolved::Known(x)));
    if let Resolved::Known(z) = inner {
        vstd::arithmetic::mul::lemma_mul_basics(z as int);
        vstd::arithmetic::div_mod::lemma_mod_bound((sum + ((modulus() - x) % modulus() as int)) as int, modulus() as int);
        vstd::arithmetic::div_mod::lemma_small_mod(z, modulus());
    }
}

/// The `n`-th term of the recurrence `t(n) = t(n - 1) + t(n - 2)` modulo
/// the field order, with `t(0) = a` and `t(1) = b`.
pub open spec fn fib_term(a: nat, b: nat, n: nat) -> nat
    decreases n,
{
    if n == 0 {
        a
    } else if n == 1 {
        b
    } else {
        (fib_term(a, b, (n - 1) as nat) + fib_term(a, b, (n - 2) as nat)) % modulus()
    }
}

} // verus!
