//! The mock verifier: configures a circuit, lets it fill a fresh table, and
//! checks every gate, lookup, copy constraint and public-input binding
//! against the result.

use crate::constraint_system::{ConstraintSystem, FixedUse};
use crate::error::Error;
use crate::expression::{eval, queries, read_cell, Expression, Rotation};
use crate::field::{modulus, Fe};
use crate::layout::{copy_clean, CopyConstraint, Layouter, PublicBinding};
use crate::table::{CellRef, Column, ColumnKind, Table, MAX_ROWS};
use crate::value::{CellValue, Resolved};
use vstd::arithmetic::power2::{lemma2_to64, lemma_pow2_strictly_increases, lemma_pow2_unfold, pow2};
use vstd::prelude::*;

verus! {

/// A circuit: a shape declared once, then the values that fill it.
pub trait Circuit {
    type Config;

    /// Declares columns, gates and lookups on an empty registry.
    fn configure(cs: &mut ConstraintSystem) -> (config: Self::Config)
        requires
            old(cs).wf(),
            old(cs).num_advice == 0,
            old(cs).num_instance == 0,
            old(cs).num_table == 0,
            old(cs).fixed@.len() == 0,
        ensures
            final(cs).wf(),
    ;

    /// Fills the table through the layouter.
    fn synthesize(&self, config: &Self::Config, layouter: &mut Layouter) -> (r: Result<(), Error>)
        requires
            old(layouter).wf(),
        ensures
            final(layouter).wf(),
            old(layouter).same_shape(*final(layouter)),
            old(layouter).keeps_instances(*final(layouter)),
    ;
}

/// Where a row lies: inside a region, as an offset from its start, or
/// outside every region.
#[derive(Clone, Copy, Debug, PartialEq, Eq, Structural)]
pub enum Location {
    InRegion { region: usize, offset: usize },
    OutsideRegion { row: usize },
}

/// A constraint that the filled table breaks.
#[derive(Clone, Debug, PartialEq, Eq)]
pub enum Violation {
    /// A gate constraint that is not zero at `row`, with the cells it reads.
    ConstraintNotSatisfied {
        gate: usize,
        constraint: usize,
        row: usize,
        location: Location,
        cell_values: Vec<(Column, Rotation, CellValue)>,
    },
    /// A lookup whose inputs at `row` form no row of its table.
    Lookup { lookup: usize, row: usize, location: Location },
    /// A copy constraint between cells that differ.
    Equality { left: CellRef, right: CellRef },
    /// A cell that differs from the public input bound to it.
    Public { cell: CellRef, instance: CellRef },
}

/// What a violation reports, without its location and cell values.
pub enum Fault {
    Gate { gate: int, constraint: int, row: int },
    Lookup { lookup: int, row: int },
    Equality { copy: CopyConstraint },
    Public { binding: PublicBinding },
}

impl View for Violation {
    type V = Fault;

    open spec fn view(&self) -> Fault {
        match self {
            Violation::ConstraintNotSatisfied { gate, constraint, row, .. } => Fault::Gate {
                gate: *gate as int,
                constraint: *constraint as int,
                row: *row as int,
            },
            Violation::Lookup { lookup, row, .. } => Fault::Lookup { lookup: *lookup as int, row: *row as int },
            Violation::Equality { left, right } => Fault::Equality {
                copy: CopyConstraint { left: *left, right: *right },
            },
            Violation::Public { cell, instance } => Fault::Public {
                binding: PublicBinding { cell: *cell, instance: *instance },
            },
        }
    }
}

pub open spec fn views(s: Seq<Violation>) -> Seq<Fault> {
    s.map_values(|v: Violation| v@)
}

pub proof fn lemma_views_push(s: Seq<Violation>, v: Violation)
    ensures
        views(s.push(v)) == views(s).push(v@),
{
    assert(views(s.push(v)) =~= views(s).push(v@));
}

/// A configured circuit together with the table its synthesis filled.
pub struct MockProver {
    pub k: u32,
    pub cs: ConstraintSystem,
    pub layout: Layouter,
}

impl MockProver {
    pub open spec fn table(self) -> Table {
        self.layout.table
    }

    pub open spec fn wf(self) -> bool {
        &&& self.cs.wf()
        &&& self.layout.wf()
        &&& self.table().advice@.len() == self.cs.num_advice
        &&& self.table().fixed@.len() == self.cs.fixed@.len()
        &&& self.table().instance@.len() == self.cs.num_instance
        &&& self.table().lookup@.len() == self.cs.num_table
    }

    pub open spec fn constraint(self, g: int, c: int) -> Expression {
        self.cs.gates@[g].constraints@[c]
    }

    /// Constraint `c` of gate `g` evaluates at `row` to a known nonzero value.
    pub open spec fn gate_fault(self, g: int, c: int, row: int) -> bool {
        eval(self.constraint(g, c), self.table(), row) matches Resolved::Known(v) && v != 0
    }

    /// The faults of the first `n` constraints of gate `g` at `row`.
    pub open spec fn constraint_faults(self, row: int, g: int, n: int) -> Seq<Fault>
        decreases n,
    {
        if n <= 0 {
            Seq::empty()
        } else {
            self.constraint_faults(row, g, n - 1) + if self.gate_fault(g, n - 1, row) {
                seq![Fault::Gate { gate: g, constraint: n - 1, row }]
            } else {
                Seq::empty()
            }
        }
    }

    /// The faults of the first `n` gates at `row`.
    pub open spec fn gate_faults(self, row: int, n: int) -> Seq<Fault>
        decreases n,
    {
        if n <= 0 {
            Seq::empty()
        } else {
            self.gate_faults(row, n - 1) + self.constraint_faults(
                row,
                n - 1,
                self.cs.gates@[n - 1].constraints@.len() as int,
            )
        }
    }

    /// Every input of lookup `l` is known at `row`.
    pub open spec fn inputs_known(self, l: int, row: int) -> bool {
        forall|i: int|
            0 <= i < self.cs.lookups@[l].inputs@.len() ==> #[trigger] eval(
                self.cs.lookups@[l].inputs@[i],
                self.table(),
                row,
            ) is Known
    }

    /// Row `t` of the table columns of lookup `l` holds its inputs at `row`.
    pub open spec fn table_row_matches(self, l: int, row: int, t: int) -> bool {
        forall|i: int|
            0 <= i < self.cs.lookups@[l].inputs@.len() ==> #[trigger] self.table().cell(
                self.cs.lookups@[l].table@[i],
                t,
            ) == eval(self.cs.lookups@[l].inputs@[i], self.table(), row)
    }

    /// The inputs of lookup `l` at `row` are known and form no row of its table.
    pub open spec fn lookup_fault(self, l: int, row: int) -> bool {
        &&& self.inputs_known(l, row)
        &&& !exists|t: int| 0 <= t < self.table().rows && #[trigger] self.table_row_matches(l, row, t)
    }

    pub open spec fn lookup_faults(self, row: int, n: int) -> Seq<Fault>
        decreases n,
    {
        if n <= 0 {
            Seq::empty()
        } else {
            self.lookup_faults(row, n - 1) + if self.lookup_fault(n - 1, row) {
                seq![Fault::Lookup { lookup: n - 1, row }]
            } else {
                Seq::empty()
            }
        }
    }

    /// The faults at one row: gates in order, then lookups in order.
    pub open spec fn row_faults(self, row: int) -> Seq<Fault> {
        self.gate_faults(row, self.cs.gates@.len() as int) + self.lookup_faults(
            row,
            self.cs.lookups@.len() as int,
        )
    }

    /// The faults of the first `n` rows, row by row.
    pub open spec fn rows_faults(self, n: int) -> Seq<Fault>
        decreases n,
    {
        if n <= 0 {
            Seq::empty()
        } else {
            self.rows_faults(n - 1) + self.row_faults(n - 1)
        }
    }

    /// Two cells that should be equal are not both known and equal: one of
    /// them is unassigned or unknown, or they hold different values.
    pub open spec fn cells_differ(self, a: CellRef, b: CellRef) -> bool {
        let x = self.table().cell(a.column, a.row as int);
        let y = self.table().cell(b.column, b.row as int);
        match (x, y) {
            (Resolved::Known(u), Resolved::Known(v)) => u != v,
            _ => true,
        }
    }

    pub open spec fn copy_faults(self, n: int) -> Seq<Fault>
        decreases n,
    {
        if n <= 0 {
            Seq::empty()
        } else {
            let cc = self.layout.copies@[n - 1];
            self.copy_faults(n - 1) + if self.cells_differ(cc.left, cc.right) {
                seq![Fault::Equality { copy: cc }]
            } else {
                Seq::empty()
            }
        }
    }

    pub open spec fn public_faults(self, n: int) -> Seq<Fault>
        decreases n,
    {
        if n <= 0 {
            Seq::empty()
        } else {
            let b = self.layout.publics@[n - 1];
            self.public_faults(n - 1) + if self.cells_differ(b.cell, b.instance) {
                seq![Fault::Public { binding: b }]
            } else {
                Seq::empty()
            }
        }
    }

    /// Every fault of the filled table: gates and lookups row by row, then
    /// copy constraints, then public-input bindings, each in the order they
    /// were declared.
    pub open spec fn faults(self) -> Seq<Fault> {
        self.rows_faults(self.table().rows as int) + self.copy_faults(self.layout.copies@.len() as int)
            + self.public_faults(self.layout.publics@.len() as int)
    }

    /// The first region, from the `i`-th on, that holds `row`.
    pub open spec fn region_from(self, row: int, i: int) -> Option<int>
        decreases self.layout.regions@.len() - i,
    {
        if i < 0 || i >= self.layout.regions@.len() {
            None
        } else if self.layout.regions@[i].start <= row < self.layout.regions@[i].start
            + self.layout.regions@[i].len {
            Some(i)
        } else {
            self.region_from(row, i + 1)
        }
    }

    pub open spec fn location_of(self, row: int) -> Location {
        match self.region_from(row, 0) {
            Some(i) => Location::InRegion {
                region: i as usize,
                offset: (row - self.layout.regions@[i].start) as usize,
            },
            None => Location::OutsideRegion { row: row as usize },
        }
    }

    /// No active gate constraint and no lookup input reads a cell that was
    /// never assigned, or a row outside the table.
    pub open spec fn complete(self) -> bool {
        &&& forall|g: int, c: int, row: int|
            0 <= g < self.cs.gates@.len() && 0 <= c < self.cs.gates@[g].constraints@.len() && 0 <= row
                < self.table().rows ==> !(#[trigger] eval(self.constraint(g, c), self.table(), row) is Missing)
        &&& forall|l: int, i: int, row: int|
            0 <= l < self.cs.lookups@.len() && 0 <= i < self.cs.lookups@[l].inputs@.len() && 0 <= row
                < self.table().rows ==> !(#[trigger] eval(self.cs.lookups@[l].inputs@[i], self.table(), row) is Missing)
    }

    /// No active constraint or lookup input at `row` reads a missing cell.
    pub open spec fn row_complete(self, row: int) -> bool {
        &&& forall|g: int, c: int|
            0 <= g < self.cs.gates@.len() && 0 <= c < self.cs.gates@[g].constraints@.len()
                ==> !(#[trigger] eval(self.constraint(g, c), self.table(), row) is Missing)
        &&& forall|l: int, i: int|
            0 <= l < self.cs.lookups@.len() && 0 <= i < self.cs.lookups@[l].inputs@.len()
                ==> !(#[trigger] eval(self.cs.lookups@[l].inputs@[i], self.table(), row) is Missing)
    }

    /// Lookup `l` has one input, which at `row` is the known value `range`,
    /// while every known value of its table column lies below `range`.
    pub open spec fn input_beyond_table(self, l: int, row: int, range: nat) -> bool {
        let lk = self.cs.lookups@[l];
        &&& lk.inputs@.len() == 1
        &&& range < modulus()
        &&& eval(lk.inputs@[0], self.table(), row) == Resolved::Known(range)
        &&& forall|t: int|
            0 <= t < self.table().rows ==> !(#[trigger] self.table().cell(lk.table@[0], t) matches Resolved::Known(v)
                && v >= range)
    }

    /// Lookup `l` has one input, and some row of its table column holds
    /// what the input evaluates to at `row`.
    pub open spec fn input_in_table(self, l: int, row: int) -> bool {
        let lk = self.cs.lookups@[l];
        &&& lk.inputs@.len() == 1
        &&& exists|t: int|
            0 <= t < self.table().rows && #[trigger] self.table().cell(lk.table@[0], t) == eval(
                lk.inputs@[0],
                self.table(),
                row,
            )
    }

    /// Both cells of copy constraint `i` hold the same known value.
    pub open spec fn copy_holds_known(self, i: int) -> bool {
        let cc = self.layout.copies@[i];
        let x = self.table().cell(cc.left.column, cc.left.row as int);
        x is Known && x == self.table().cell(cc.right.column, cc.right.row as int)
    }

    /// The cells of copy constraint `i` hold different known values.
    pub open spec fn copy_breaks_known(self, i: int) -> bool {
        let cc = self.layout.copies@[i];
        let x = self.table().cell(cc.left.column, cc.left.row as int);
        let y = self.table().cell(cc.right.column, cc.right.row as int);
        x is Known && y is Known && x != y
    }

    /// No copy constraint but the `i`-th has cells that differ.
    pub open spec fn only_copy_broken(self, i: int) -> bool {
        forall|j: int|
            0 <= j < self.layout.copies@.len() && j != i ==> !self.cells_differ(
                #[trigger] self.layout.copies@[j].left,
                self.layout.copies@[j].right,
            )
    }

    /// A reported cell: one that `e` reads, with its contents at `row`.
    pub open spec fn entry_of(self, e: Expression, row: int, t: (Column, Rotation, CellValue)) -> bool {
        &&& queries(e).contains((t.0, t.1))
        &&& t.2@ == self.table().cell(t.0, row + t.1.0)
    }

    /// A gate violation at `row` for constraint `e` reports the location of
    /// `row`, and each cell that `e` reads but selectors, with its contents.
    pub open spec fn gate_report(self, e: Expression, row: int, location: Location, cells: Seq<(Column, Rotation, CellValue)>) -> bool {
        &&& location == self.location_of(row)
        &&& forall|i: int| 0 <= i < cells.len() ==> self.entry_of(e, row, #[trigger] cells[i])
        &&& forall|q: (Column, Rotation)|
            #[trigger] queries(e).contains(q) && !self.is_selector_column(q.0) ==> exists|i: int|
                0 <= i < cells.len() && (#[trigger] cells[i]).0 == q.0 && cells[i].1 == q.1
    }

    /// The location and cell values that a violation reports are those of
    /// the table.
    pub open spec fn reported(self, v: Violation) -> bool {
        match v {
            Violation::ConstraintNotSatisfied { gate, constraint, row, location, cell_values } => self.gate_report(
                self.constraint(gate as int, constraint as int),
                row as int,
                location,
                cell_values@,
            ),
            Violation::Lookup { row, location, .. } => location == self.location_of(row as int),
            _ => true,
        }
    }

    /// The location of `row`.
    pub fn location(&self, row: usize) -> (r: Location)
        requires
            self.wf(),
        ensures
            r == self.location_of(row as int),
    {
        let regions = &self.layout.regions;
        let mut i: usize = 0;
        while i < regions.len()
            invariant
                i <= regions@.len(),
                regions == self.layout.regions,
                self.region_from(row as int, 0) == self.region_from(row as int, i as int),
            decreases regions@.len() - i,
        {
            let start = regions[i].start;
            if start <= row && row - start < regions[i].len {
                return Location::InRegion { region: i, offset: row - start };
            }
            i = i + 1;
        }
        Location::OutsideRegion { row }
    }

    /// Whether `c` holds a selector.
    pub open spec fn is_selector_column(self, c: Column) -> bool {
        c.kind == ColumnKind::Fixed && c.index < self.cs.fixed@.len() && self.cs.fixed@[c.index as int] != FixedUse::Plain
    }

    fn selector_column(&self, c: Column) -> (r: bool)
        ensures
            r == self.is_selector_column(c),
    {
        match c.kind {
            ColumnKind::Fixed => c.index < self.cs.fixed.len() && self.cs.fixed[c.index] != FixedUse::Plain,
            _ => false,
        }
    }

    /// Adds to `acc` each cell that `e` reads, but selectors, and that `acc`
    /// does not list yet, with its contents at `row`.
    fn collect_cells(&self, e: &Expression, row: usize, acc: &mut Vec<(Column, Rotation, CellValue)>)
        requires
            self.wf(),
            row < self.table().rows,
        ensures
            final(acc)@.len() >= old(acc)@.len(),
            final(acc)@.subrange(0, old(acc)@.len() as int) == old(acc)@,
            forall|i: int|
                old(acc)@.len() <= i < final(acc)@.len() ==> self.entry_of(*e, row as int, #[trigger] final(acc)@[i]),
            forall|q: (Column, Rotation)|
                #[trigger] queries(*e).contains(q) && !self.is_selector_column(q.0) ==> exists|i: int|
                    0 <= i < final(acc)@.len() && (#[trigger] final(acc)@[i]).0 == q.0 && final(acc)@[i].1 == q.1,
        decreases e,
    {
        match e {
            Expression::Constant(_) => {
                assert(queries(*e) == Seq::<(Column, Rotation)>::empty());
                assert(acc@ == old(acc)@);
                assert(acc@.subrange(0, old(acc)@.len() as int) =~= old(acc)@);
            },
            Expression::Cell(c, rot) => {
                let mut i: usize = 0;
                let mut found = false;
                while i < acc.len()
                    invariant
                        i <= acc@.len(),
                        acc@ == old(acc)@,
                        found ==> exists|j: int| 0 <= j < acc@.len() && (#[trigger] acc@[j]).0 == *c && acc@[j].1 == *rot,
                    decreases acc@.len() - i,
                {
                    if acc[i].0 == *c && acc[i].1 == *rot {
                        found = true;
                    }
                    i = i + 1;
                }
                assert(queries(*e) == seq![(*c, *rot)]);
                assert(queries(*e)[0] == (*c, *rot));
                assert(queries(*e).contains((*c, *rot)));
                if !found && !self.selector_column(*c) {
                    let x = read_cell(&self.layout.table, *c, row, *rot);
                    acc.push((*c, *rot, x));
                    assert(acc@[acc@.len() - 1].0 == *c);
                    assert(self.entry_of(*e, row as int, acc@[acc@.len() - 1]));
                }
                assert forall|q: (Column, Rotation)| #[trigger] queries(*e).contains(q) && !self.is_selector_column(q.0) implies exists|i: int|
                    0 <= i < acc@.len() && (#[trigger] acc@[i]).0 == q.0 && acc@[i].1 == q.1 by {
                    assert(q == queries(*e)[0]);
                }
                assert(acc@.subrange(0, old(acc)@.len() as int) =~= old(acc)@);
            },
            Expression::Negated(a) => {
                self.collect_cells(a, row, acc);
                assert(queries(*e) == queries(**a));
            },
            Expression::Scaled(a, _) => {
                self.collect_cells(a, row, acc);
                assert(queries(*e) == queries(**a));
            },
            Expression::Sum(a, b) | Expression::Product(a, b) => {
                let ghost before = acc@;
                self.collect_cells(a, row, acc);
                let ghost mid = acc@;
                self.collect_cells(b, row, acc);
                proof {
                    assert(acc@.subrange(0, before.len() as int) =~= mid.subrange(0, before.len() as int));
                    assert forall|i: int| before.len() <= i < acc@.len() implies self.entry_of(*e, row as int, #[trigger] acc@[i]) by {
                        if i < mid.len() {
                            assert(acc@[i] == acc@.subrange(0, mid.len() as int)[i]);
                            let (c, rot, x) = acc@[i];
                            assert(queries(**a).contains((c, rot)));
                            let k = choose|k: int| 0 <= k < queries(**a).len() && queries(**a)[k] == (c, rot);
                            assert(queries(*e)[k] == (c, rot));
                        } else {
                            let (c, rot, x) = acc@[i];
                            assert(queries(**b).contains((c, rot)));
                            let k = choose|k: int| 0 <= k < queries(**b).len() && queries(**b)[k] == (c, rot);
                            assert(queries(*e)[queries(**a).len() + k] == (c, rot));
                        }
                    }
                    assert forall|q: (Column, Rotation)| #[trigger] queries(*e).contains(q) && !self.is_selector_column(q.0) implies exists|i: int|
                        0 <= i < acc@.len() && (#[trigger] acc@[i]).0 == q.0 && acc@[i].1 == q.1 by {
                        let k = choose|k: int| 0 <= k < queries(*e).len() && queries(*e)[k] == q;
                        if k < queries(**a).len() {
                            assert(queries(**a)[k] == q);
                            assert(queries(**a).contains(q));
                            let j = choose|j: int| 0 <= j < mid.len() && (#[trigger] mid[j]).0 == q.0 && mid[j].1 == q.1;
                            assert(acc@[j] == acc@.subrange(0, mid.len() as int)[j]);
                        } else {
                            assert(queries(**b)[k - queries(**a).len()] == q);
                            assert(queries(**b).contains(q));
                        }
                    }
                }
            },
        }
    }

    /// Appends the violations of gate `g` at `row`.
    fn check_gate(&self, row: usize, g: usize, out: &mut Vec<Violation>)
        requires
            self.wf(),
            row < self.table().rows,
            g < self.cs.gates@.len(),
            forall|i: int| 0 <= i < old(out)@.len() ==> self.reported(#[trigger] old(out)@[i]),
        ensures
            views(final(out)@) == views(old(out)@) + self.constraint_faults(
                row as int,
                g as int,
                self.cs.gates@[g as int].constraints@.len() as int,
            ),
            forall|i: int| 0 <= i < final(out)@.len() ==> self.reported(#[trigger] final(out)@[i]),
    {
        let constraints = &self.cs.gates[g].constraints;
        let mut c: usize = 0;
        while c < constraints.len()
            invariant
                c <= constraints@.len(),
                constraints == self.cs.gates@[g as int].constraints,
                self.wf(),
                row < self.table().rows,
                g < self.cs.gates@.len(),
                views(out@) == views(old(out)@) + self.constraint_faults(row as int, g as int, c as int),
                forall|i: int| 0 <= i < out@.len() ==> self.reported(#[trigger] out@[i]),
            decreases constraints@.len() - c,
        {
            let v = constraints[c].evaluate(&self.layout.table, row);
            let bad = match v {
                CellValue::Known(x) => !x.is_zero(),
                _ => false,
            };
            let ghost prev = out@;
            if bad {
                let mut cells: Vec<(Column, Rotation, CellValue)> = Vec::new();
                self.collect_cells(&constraints[c], row, &mut cells);
                let location = self.location(row);
                let viol = Violation::ConstraintNotSatisfied { gate: g, constraint: c, row, location, cell_values: cells };
                proof {
                    let e = self.constraint(g as int, c as int);
                    assert(constraints@[c as int] == e);
                    assert(self.gate_report(e, row as int, location, cells@));
                }
                out.push(viol);
                proof {
                    lemma_views_push(prev, viol);
                    assert forall|i: int| 0 <= i < out@.len() implies self.reported(#[trigger] out@[i]) by {
                        if i < prev.len() {
                            assert(out@[i] == prev[i]);
                        }
                    }
                }
            }
            proof {
                assert(self.constraint_faults(row as int, g as int, c + 1) == self.constraint_faults(row as int, g as int, c as int) + if self.gate_fault(g as int, c as int, row as int) {
                    seq![Fault::Gate { gate: g as int, constraint: c as int, row: row as int }]
                } else {
                    Seq::empty()
                });
                if bad {
                    assert(views(out@) =~= views(old(out)@) + self.constraint_faults(row as int, g as int, c + 1));
                } else {
                    assert(views(out@) =~= views(old(out)@) + self.constraint_faults(row as int, g as int, c + 1));
                }
            }
            c = c + 1;
        }
    }

    /// Whether lookup `l` fails at `row`.
    fn lookup_fails(&self, l: usize, row: usize) -> (r: bool)
        requires
            self.wf(),
            row < self.table().rows,
            l < self.cs.lookups@.len(),
        ensures
            r == self.lookup_fault(l as int, row as int),
    {
        let lk = &self.cs.lookups[l];
        let table = &self.layout.table;
        assert(self.cs.lookup_ok(self.cs.lookups@[l as int]));
        let mut vals: Vec<Fe> = Vec::new();
        let mut i: usize = 0;
        while i < lk.inputs.len()
            invariant
                i <= lk.inputs@.len(),
                l < self.cs.lookups@.len(),
                lk == self.cs.lookups@[l as int],
                table == self.layout.table,
                self.wf(),
                row < self.table().rows,
                vals@.len() == i,
                forall|j: int| 0 <= j < i ==> eval(lk.inputs@[j], *table, row as int) == Resolved::Known((#[trigger] vals@[j])@),
            decreases lk.inputs@.len() - i,
        {
            match lk.inputs[i].evaluate(table, row) {
                CellValue::Known(x) => vals.push(x),
                _ => {
                    assert(!(eval(lk.inputs@[i as int], *table, row as int) is Known));
                    return false;
                },
            }
            i = i + 1;
        }
        assert forall|m: int| 0 <= m < lk.inputs@.len() implies #[trigger] eval(lk.inputs@[m], *table, row as int) is Known by {
            assert(eval(lk.inputs@[m], *table, row as int) == Resolved::Known(vals@[m]@));
        }
        assert(self.inputs_known(l as int, row as int));
        let mut t: usize = 0;
        while t < table.rows
            invariant
                t <= table.rows,
                l < self.cs.lookups@.len(),
                lk == self.cs.lookups@[l as int],
                table == self.layout.table,
                self.wf(),
                row < self.table().rows,
                vals@.len() == lk.inputs@.len(),
                lk.inputs@.len() == lk.table@.len(),
                forall|j: int| 0 <= j < vals@.len() ==> eval(lk.inputs@[j], *table, row as int) == Resolved::Known((#[trigger] vals@[j])@),
                forall|j: int| 0 <= j < lk.table@.len() ==> (#[trigger] lk.table@[j]).kind == ColumnKind::Table && self.cs.declared(lk.table@[j]),
                forall|u: int| 0 <= u < t ==> !self.table_row_matches(l as int, row as int, u),
            decreases table.rows - t,
        {
            let mut j: usize = 0;
            let mut all = true;
            while j < lk.table.len()
                invariant
                    j <= lk.table@.len(),
                    l < self.cs.lookups@.len(),
                lk == self.cs.lookups@[l as int],
                    table == self.layout.table,
                    self.wf(),
                    t < table.rows,
                    vals@.len() == lk.inputs@.len(),
                    lk.inputs@.len() == lk.table@.len(),
                    forall|m: int| 0 <= m < vals@.len() ==> eval(lk.inputs@[m], *table, row as int) == Resolved::Known((#[trigger] vals@[m])@),
                    forall|m: int| 0 <= m < lk.table@.len() ==> (#[trigger] lk.table@[m]).kind == ColumnKind::Table && self.cs.declared(lk.table@[m]),
                    all ==> forall|m: int| 0 <= m < j ==> #[trigger] table.cell(lk.table@[m], t as int) == eval(lk.inputs@[m], *table, row as int),
                    !all ==> !self.table_row_matches(l as int, row as int, t as int),
                decreases lk.table@.len() - j,
            {
                if all {
                    let same = match table.get(lk.table[j], t) {
                        CellValue::Known(y) => y.equals(&vals[j]),
                        _ => false,
                    };
                    if !same {
                        all = false;
                        assert(eval(lk.inputs@[j as int], *table, row as int) == Resolved::Known(vals@[j as int]@));
                        assert(table.cell(lk.table@[j as int], t as int) != eval(lk.inputs@[j as int], *table, row as int));
                    }
                }
                j = j + 1;
            }
            if all {
                assert(self.table_row_matches(l as int, row as int, t as int));
                return false;
            }
            t = t + 1;
        }
        true
    }

    /// Appends the violations at `row`: gates in order, then lookups.
    fn check_row(&self, row: usize, out: &mut Vec<Violation>)
        requires
            self.wf(),
            row < self.table().rows,
            forall|i: int| 0 <= i < old(out)@.len() ==> self.reported(#[trigger] old(out)@[i]),
        ensures
            views(final(out)@) == views(old(out)@) + self.row_faults(row as int),
            forall|i: int| 0 <= i < final(out)@.len() ==> self.reported(#[trigger] final(out)@[i]),
    {
        let mut g: usize = 0;
        while g < self.cs.gates.len()
            invariant
                g <= self.cs.gates@.len(),
                self.wf(),
                row < self.table().rows,
                views(out@) == views(old(out)@) + self.gate_faults(row as int, g as int),
                forall|i: int| 0 <= i < out@.len() ==> self.reported(#[trigger] out@[i]),
            decreases self.cs.gates@.len() - g,
        {
            self.check_gate(row, g, out);
            assert(views(out@) =~= views(old(out)@) + self.gate_faults(row as int, g + 1));
            g = g + 1;
        }
        let ghost gates_done = views(out@);
        let mut l: usize = 0;
        while l < self.cs.lookups.len()
            invariant
                l <= self.cs.lookups@.len(),
                self.wf(),
                row < self.table().rows,
                gates_done == views(old(out)@) + self.gate_faults(row as int, self.cs.gates@.len() as int),
                views(out@) == gates_done + self.lookup_faults(row as int, l as int),
                forall|i: int| 0 <= i < out@.len() ==> self.reported(#[trigger] out@[i]),
            decreases self.cs.lookups@.len() - l,
        {
            let ghost prev = out@;
            if self.lookup_fails(l, row) {
                let location = self.location(row);
                let viol = Violation::Lookup { lookup: l, row, location };
                out.push(viol);
                proof {
                    lemma_views_push(prev, viol);
                    assert forall|i: int| 0 <= i < out@.len() implies self.reported(#[trigger] out@[i]) by {
                        if i < prev.len() {
                            assert(out@[i] == prev[i]);
                        }
                    }
                }
            }
            assert(views(out@) =~= gates_done + self.lookup_faults(row as int, l + 1));
            l = l + 1;
        }
        assert(views(out@) =~= views(old(out)@) + self.row_faults(row as int));
    }

    /// Whether two cells that should be equal differ.
    fn differ(&self, a: CellRef, b: CellRef) -> (r: bool)
        requires
            self.wf(),
        ensures
            r == self.cells_differ(a, b),
    {
        let x = if a.row < self.layout.table.rows {
            read_cell(&self.layout.table, a.column, a.row, Rotation(0))
        } else {
            CellValue::Unassigned
        };
        let y = if b.row < self.layout.table.rows {
            read_cell(&self.layout.table, b.column, b.row, Rotation(0))
        } else {
            CellValue::Unassigned
        };
        match (x, y) {
            (CellValue::Known(u), CellValue::Known(v)) => !u.equals(&v),
            _ => true,
        }
    }

    /// Checks every constraint against the filled table. Succeeds exactly
    /// when nothing is broken; otherwise lists every violation: gates and
    /// lookups row by row (gates before lookups, each in declaration order),
    /// then copy constraints, then public inputs.
    pub fn verify(&self) -> (r: Result<(), Vec<Violation>>)
        requires
            self.wf(),
        ensures
            r is Ok <==> self.faults().len() == 0,
            r matches Err(v) ==> views(v@) == self.faults()
                && forall|i: int| 0 <= i < v@.len() ==> self.reported(#[trigger] v@[i]),
    {
        let mut out: Vec<Violation> = Vec::new();
        let mut row: usize = 0;
        assert(views(out@) =~= self.rows_faults(0));
        while row < self.layout.table.rows
            invariant
                row <= self.table().rows,
                self.wf(),
                views(out@) == self.rows_faults(row as int),
                forall|i: int| 0 <= i < out@.len() ==> self.reported(#[trigger] out@[i]),
            decreases self.table().rows - row,
        {
            self.check_row(row, &mut out);
            row = row + 1;
        }
        let ghost rows_done = views(out@);
        let mut i: usize = 0;
        while i < self.layout.copies.len()
            invariant
                i <= self.layout.copies@.len(),
                self.wf(),
                rows_done == self.rows_faults(self.table().rows as int),
                views(out@) == rows_done + self.copy_faults(i as int),
                forall|j: int| 0 <= j < out@.len() ==> self.reported(#[trigger] out@[j]),
            decreases self.layout.copies@.len() - i,
        {
            let cc = self.layout.copies[i];
            let ghost prev = out@;
            if self.differ(cc.left, cc.right) {
                let viol = Violation::Equality { left: cc.left, right: cc.right };
                out.push(viol);
                proof {
                    lemma_views_push(prev, viol);
                    assert forall|j: int| 0 <= j < out@.len() implies self.reported(#[trigger] out@[j]) by {
                        if j < prev.len() {
                            assert(out@[j] == prev[j]);
                        }
                    }
                }
            }
            assert(views(out@) =~= rows_done + self.copy_faults(i + 1));
            i = i + 1;
        }
        let ghost copies_done = views(out@);
        let mut i: usize = 0;
        while i < self.layout.publics.len()
            invariant
                i <= self.layout.publics@.len(),
                self.wf(),
                copies_done == self.rows_faults(self.table().rows as int) + self.copy_faults(self.layout.copies@.len() as int),
                views(out@) == copies_done + self.public_faults(i as int),
                forall|j: int| 0 <= j < out@.len() ==> self.reported(#[trigger] out@[j]),
            decreases self.layout.publics@.len() - i,
        {
            let b = self.layout.publics[i];
            let ghost prev = out@;
            if self.differ(b.cell, b.instance) {
                let viol = Violation::Public { cell: b.cell, instance: b.instance };
                out.push(viol);
                proof {
                    lemma_views_push(prev, viol);
                    assert forall|j: int| 0 <= j < out@.len() implies self.reported(#[trigger] out@[j]) by {
                        if j < prev.len() {
                            assert(out@[j] == prev[j]);
                        }
                    }
                }
            }
            assert(views(out@) =~= copies_done + self.public_faults(i + 1));
            i = i + 1;
        }
        assert(views(out@) == self.faults());
        if out.len() == 0 {
            Ok(())
        } else {
            Err(out)
        }
    }

    /// The first gate constraint or lookup input at `row` that reads a
    /// missing cell, if any.
    fn row_gap(&self, row: usize) -> (r: Option<Error>)
        requires
            self.wf(),
            row < self.table().rows,
        ensures
            r is None <==> self.row_complete(row as int),
            r matches Some(e) ==> match e {
                Error::GateCellNotAssigned { gate, constraint, row: at } => at == row
                    && gate < self.cs.gates@.len()
                    && constraint < self.cs.gates@[gate as int].constraints@.len()
                    && eval(self.constraint(gate as int, constraint as int), self.table(), row as int) is Missing,
                Error::LookupCellNotAssigned { lookup, input, row: at } => at == row
                    && lookup < self.cs.lookups@.len()
                    && input < self.cs.lookups@[lookup as int].inputs@.len()
                    && eval(self.cs.lookups@[lookup as int].inputs@[input as int], self.table(), row as int) is Missing,
                _ => false,
            },
    {
        let mut g: usize = 0;
        while g < self.cs.gates.len()
            invariant
                g <= self.cs.gates@.len(),
                self.wf(),
                row < self.table().rows,
                forall|h: int, c: int|
                    0 <= h < g && 0 <= c < self.cs.gates@[h].constraints@.len()
                        ==> !(#[trigger] eval(self.constraint(h, c), self.table(), row as int) is Missing),
            decreases self.cs.gates@.len() - g,
        {
            let constraints = &self.cs.gates[g].constraints;
            let mut c: usize = 0;
            while c < constraints.len()
                invariant
                    c <= constraints@.len(),
                    g < self.cs.gates@.len(),
                    constraints == self.cs.gates@[g as int].constraints,
                    self.wf(),
                    row < self.table().rows,
                    forall|h: int, d: int|
                        0 <= h < g && 0 <= d < self.cs.gates@[h].constraints@.len()
                            ==> !(#[trigger] eval(self.constraint(h, d), self.table(), row as int) is Missing),
                    forall|d: int| 0 <= d < c ==> !(#[trigger] eval(self.constraint(g as int, d), self.table(), row as int) is Missing),
                decreases constraints@.len() - c,
            {
                match constraints[c].evaluate(&self.layout.table, row) {
                    CellValue::Unassigned => {
                        return Some(Error::GateCellNotAssigned { gate: g, constraint: c, row });
                    },
                    _ => {},
                }
                c = c + 1;
            }
            proof {
                assert forall|h: int, d: int|
                    0 <= h < g + 1 && 0 <= d < self.cs.gates@[h].constraints@.len()
                        implies !(#[trigger] eval(self.constraint(h, d), self.table(), row as int) is Missing) by {
                    if h == g {
                        assert(!(eval(self.constraint(g as int, d), self.table(), row as int) is Missing));
                    }
                }
            }
            g = g + 1;
        }
        let mut l: usize = 0;
        while l < self.cs.lookups.len()
            invariant
                l <= self.cs.lookups@.len(),
                self.wf(),
                row < self.table().rows,
                forall|h: int, c: int|
                    0 <= h < self.cs.gates@.len() && 0 <= c < self.cs.gates@[h].constraints@.len()
                        ==> !(#[trigger] eval(self.constraint(h, c), self.table(), row as int) is Missing),
                forall|m: int, i: int|
                    0 <= m < l && 0 <= i < self.cs.lookups@[m].inputs@.len()
                        ==> !(#[trigger] eval(self.cs.lookups@[m].inputs@[i], self.table(), row as int) is Missing),
            decreases self.cs.lookups@.len() - l,
        {
            let inputs = &self.cs.lookups[l].inputs;
            let mut i: usize = 0;
            while i < inputs.len()
                invariant
                    i <= inputs@.len(),
                    l < self.cs.lookups@.len(),
                    inputs == self.cs.lookups@[l as int].inputs,
                    self.wf(),
                    row < self.table().rows,
                    forall|m: int, j: int|
                        0 <= m < l && 0 <= j < self.cs.lookups@[m].inputs@.len()
                            ==> !(#[trigger] eval(self.cs.lookups@[m].inputs@[j], self.table(), row as int) is Missing),
                    forall|j: int| 0 <= j < i ==> !(#[trigger] eval(self.cs.lookups@[l as int].inputs@[j], self.table(), row as int) is Missing),
                decreases inputs@.len() - i,
            {
                match inputs[i].evaluate(&self.layout.table, row) {
                    CellValue::Unassigned => {
                        return Some(Error::LookupCellNotAssigned { lookup: l, input: i, row });
                    },
                    _ => {},
                }
                i = i + 1;
            }
            proof {
                assert forall|m: int, j: int|
                    0 <= m < l + 1 && 0 <= j < self.cs.lookups@[m].inputs@.len()
                        implies !(#[trigger] eval(self.cs.lookups@[m].inputs@[j], self.table(), row as int) is Missing) by {
                    if m == l {
                        assert(!(eval(self.cs.lookups@[l as int].inputs@[j], self.table(), row as int) is Missing));
                    }
                }
            }
            l = l + 1;
        }
        None
    }

    /// Accepts a configured registry and the table filled for it, unless an
    /// active gate constraint or a lookup input reads a cell that was never
    /// assigned, or a row outside the table.
    pub fn from_parts(p: MockProver) -> (r: Result<MockProver, Error>)
        requires
            p.wf(),
        ensures
            r is Ok <==> p.complete(),
            r matches Ok(q) ==> q == p,
            r matches Err(e) ==> (e is GateCellNotAssigned || e is LookupCellNotAssigned),
    {
        let mut row: usize = 0;
        while row < p.layout.table.rows
            invariant
                p.wf(),
                row <= p.table().rows,
                forall|r: int| 0 <= r < row ==> #[trigger] p.row_complete(r),
            decreases p.table().rows - row,
        {
            match p.row_gap(row) {
                Some(e) => {
                    proof {
                        assert(!p.row_complete(row as int));
                        if p.complete() {
                            assert forall|g: int, c: int|
                                0 <= g < p.cs.gates@.len() && 0 <= c < p.cs.gates@[g].constraints@.len()
                                    implies !(#[trigger] eval(p.constraint(g, c), p.table(), row as int) is Missing) by {}
                            assert forall|l: int, i: int|
                                0 <= l < p.cs.lookups@.len() && 0 <= i < p.cs.lookups@[l].inputs@.len()
                                    implies !(#[trigger] eval(p.cs.lookups@[l].inputs@[i], p.table(), row as int) is Missing) by {}
                        }
                    }
                    return Err(e);
                },
                None => {},
            }
            row = row + 1;
        }
        proof {
            assert forall|g: int, c: int, r: int|
                0 <= g < p.cs.gates@.len() && 0 <= c < p.cs.gates@[g].constraints@.len() && 0 <= r
                    < p.table().rows implies !(#[trigger] eval(p.constraint(g, c), p.table(), r) is Missing) by {
                assert(p.row_complete(r));
            }
            assert forall|l: int, i: int, r: int|
                0 <= l < p.cs.lookups@.len() && 0 <= i < p.cs.lookups@[l].inputs@.len() && 0 <= r
                    < p.table().rows implies !(#[trigger] eval(p.cs.lookups@[l].inputs@[i], p.table(), r) is Missing) by {
                assert(p.row_complete(r));
            }
        }
        Ok(p)
    }

    /// Configures `circuit` on a fresh registry, binds `instance` to its
    /// instance columns (padded with zeros), lets it fill a table of `2^k`
    /// rows, and refuses the result if an active constraint or a lookup
    /// input reads a cell that was never assigned.
    pub fn run<C: Circuit>(k: u32, circuit: &C, instance: Vec<Vec<Fe>>) -> (r: Result<MockProver, Error>)
        ensures
            k > 28 ==> r == Err::<MockProver, Error>(Error::TooManyRows),
            k <= 28 && (exists|i: int| 0 <= i < instance@.len() && #[trigger] instance@[i]@.len() > pow2(k as nat))
                ==> r == Err::<MockProver, Error>(Error::InvalidInstances),
            r matches Ok(p) ==> {
                &&& p.wf()
                &&& p.k == k
                &&& p.table().rows == pow2(k as nat)
                &&& p.complete()
                &&& instance@.len() == p.cs.num_instance
                &&& forall|i: int, row: int|
                    0 <= i < instance@.len() && 0 <= row < p.table().rows ==> #[trigger] p.table().cell(
                        Column { kind: ColumnKind::Instance, index: i as usize },
                        row,
                    ) == if row < instance@[i]@.len() {
                        Resolved::Known(instance@[i]@[row]@)
                    } else {
                        Resolved::Known(0)
                    }
            },
    {
        if k > 28 {
            return Err(Error::TooManyRows);
        }
        let rows = table_rows(k);
        let mut cs = ConstraintSystem::new();
        let config = C::configure(&mut cs);
        if !instances_fit(&instance, cs.num_instance, rows) {
            return Err(Error::InvalidInstances);
        }
        let mut layout = Layouter::new(rows, &cs, &instance);
        let ghost before = layout;
        match circuit.synthesize(&config, &mut layout) {
            Ok(()) => {},
            Err(e) => {
                return Err(e);
            },
        }
        proof {
            assert(before.table.columns(ColumnKind::Advice).len() == layout.table.columns(ColumnKind::Advice).len());
            assert(before.table.columns(ColumnKind::Fixed).len() == layout.table.columns(ColumnKind::Fixed).len());
            assert(before.table.columns(ColumnKind::Instance).len() == layout.table.columns(ColumnKind::Instance).len());
            assert(before.table.columns(ColumnKind::Table).len() == layout.table.columns(ColumnKind::Table).len());
        }
        proof {
            assert forall|i: int, row: int|
                0 <= i < instance@.len() && 0 <= row < layout.table.rows implies #[trigger] layout.table.cell(
                    Column { kind: ColumnKind::Instance, index: i as usize },
                    row,
                ) == if row < instance@[i]@.len() {
                    Resolved::Known(instance@[i]@[row]@)
                } else {
                    Resolved::Known(0)
                } by {
                let c = Column { kind: ColumnKind::Instance, index: i as usize };
                assert(before.table.has_column(c));
                assert(layout.table.cell(c, row) == before.table.cell(c, row));
            }
        }
        let p = MockProver { k, cs, layout };
        Self::from_parts(p)
    }
}

/// The number of rows of a table for `k`: `2^k`.
pub fn table_rows(k: u32) -> (rows: usize)
    requires
        k <= 28,
    ensures
        rows == pow2(k as nat),
        rows <= MAX_ROWS,
        rows >= 1,
{
    let mut rows: usize = 1;
    let mut i: u32 = 0;
    proof {
        lemma2_to64();
    }
    while i < k
        invariant
            i <= k <= 28,
            rows == pow2(i as nat),
        decreases k - i,
    {
        proof {
            lemma2_to64();
            lemma_pow2_unfold((i + 1) as nat);
            if i + 1 < 28 {
                lemma_pow2_strictly_increases((i + 1) as nat, 28);
            }
        }
        rows = rows * 2;
        i = i + 1;
    }
    proof {
        lemma2_to64();
        if k < 28 {
            lemma_pow2_strictly_increases(k as nat, 28);
        }
        vstd::arithmetic::power2::lemma_pow2_pos(k as nat);
    }
    rows
}

/// The public inputs fit the instance columns: one sequence per column,
/// none longer than the table.
pub fn instances_fit(instance: &Vec<Vec<Fe>>, columns: usize, rows: usize) -> (r: bool)
    ensures
        r == (instance@.len() == columns && forall|i: int| 0 <= i < instance@.len() ==> #[trigger] instance@[i]@.len()
            <= rows),
{
    if instance.len() != columns {
        return false;
    }
    let mut j: usize = 0;
    while j < instance.len()
        invariant
            j <= instance@.len(),
            forall|m: int| 0 <= m < j ==> #[trigger] instance@[m]@.len() <= rows,
        decreases instance@.len() - j,
    {
        if instance[j].len() > rows {
            return false;
        }
        j = j + 1;
    }
    true
}

/// What each fault claims about the table.
pub open spec fn fault_holds(p: MockProver, f: Fault) -> bool {
    match f {
        Fault::Gate { gate, constraint, row } => p.gate_fault(gate, constraint, row),
        Fault::Lookup { lookup, row } => p.lookup_fault(lookup, row),
        Fault::Equality { copy } => p.cells_differ(copy.left, copy.right),
        Fault::Public { binding } => p.cells_differ(binding.cell, binding.instance),
    }
}

pub open spec fn all_hold(p: MockProver, s: Seq<Fault>) -> bool {
    forall|i: int| 0 <= i < s.len() ==> fault_holds(p, #[trigger] s[i])
}

/// Every fault of `s` is of a gate or a lookup.
pub open spec fn all_row_kind(s: Seq<Fault>) -> bool {
    forall|i: int| 0 <= i < s.len() ==> (#[trigger] s[i] is Gate || s[i] is Lookup)
}

proof fn lemma_all_hold_concat(p: MockProver, a: Seq<Fault>, b: Seq<Fault>)
    requires
        all_hold(p, a),
        all_hold(p, b),
    ensures
        all_hold(p, a + b),
        all_row_kind(a) && all_row_kind(b) ==> all_row_kind(a + b),
{
    assert forall|i: int| 0 <= i < (a + b).len() implies fault_holds(p, #[trigger] (a + b)[i]) by {
        if i < a.len() {
            assert((a + b)[i] == a[i]);
        } else {
            assert((a + b)[i] == b[i - a.len()]);
        }
    }
    if all_row_kind(a) && all_row_kind(b) {
        assert forall|i: int| 0 <= i < (a + b).len() implies (#[trigger] (a + b)[i] is Gate || (a + b)[i] is Lookup) by {
            if i < a.len() {
                assert((a + b)[i] == a[i]);
            } else {
                assert((a + b)[i] == b[i - a.len()]);
            }
        }
    }
}

proof fn lemma_row_faults_hold(p: MockProver, row: int)
    ensures
        all_hold(p, p.row_faults(row)),
        all_row_kind(p.row_faults(row)),
{
    let ng = p.cs.gates@.len() as int;
    let nl = p.cs.lookups@.len() as int;
    lemma_gate_faults_hold(p, row, ng);
    lemma_lookup_faults_hold(p, row, nl);
    lemma_all_hold_concat(p, p.gate_faults(row, ng), p.lookup_faults(row, nl));
}

proof fn lemma_constraint_faults_hold(p: MockProver, row: int, g: int, n: int)
    ensures
        all_hold(p, p.constraint_faults(row, g, n)),
        all_row_kind(p.constraint_faults(row, g, n)),
    decreases n,
{
    if n > 0 {
        lemma_constraint_faults_hold(p, row, g, n - 1);
        let tail = if p.gate_fault(g, n - 1, row) {
            seq![Fault::Gate { gate: g, constraint: n - 1, row }]
        } else {
            Seq::empty()
        };
        assert(all_hold(p, tail));
        lemma_all_hold_concat(p, p.constraint_faults(row, g, n - 1), tail);
    }
}

proof fn lemma_gate_faults_hold(p: MockProver, row: int, n: int)
    ensures
        all_hold(p, p.gate_faults(row, n)),
        all_row_kind(p.gate_faults(row, n)),
    decreases n,
{
    if n > 0 {
        lemma_gate_faults_hold(p, row, n - 1);
        let m = p.cs.gates@[n - 1].constraints@.len() as int;
        lemma_constraint_faults_hold(p, row, n - 1, m);
        lemma_all_hold_concat(p, p.gate_faults(row, n - 1), p.constraint_faults(row, n - 1, m));
    }
}

proof fn lemma_lookup_faults_hold(p: MockProver, row: int, n: int)
    ensures
        all_hold(p, p.lookup_faults(row, n)),
        all_row_kind(p.lookup_faults(row, n)),
    decreases n,
{
    if n > 0 {
        lemma_lookup_faults_hold(p, row, n - 1);
        let tail = if p.lookup_fault(n - 1, row) {
            seq![Fault::Lookup { lookup: n - 1, row }]
        } else {
            Seq::empty()
        };
        assert(all_hold(p, tail));
        lemma_all_hold_concat(p, p.lookup_faults(row, n - 1), tail);
    }
}

proof fn lemma_rows_faults_hold(p: MockProver, n: int)
    ensures
        all_hold(p, p.rows_faults(n)),
        all_row_kind(p.rows_faults(n)),
    decreases n,
{
    if n > 0 {
        lemma_rows_faults_hold(p, n - 1);
        lemma_row_faults_hold(p, n - 1);
        lemma_all_hold_concat(p, p.rows_faults(n - 1), p.row_faults(n - 1));
    }
}

proof fn lemma_copy_faults_hold(p: MockProver, n: int)
    ensures
        all_hold(p, p.copy_faults(n)),
    decreases n,
{
    if n > 0 {
        lemma_copy_faults_hold(p, n - 1);
        let cc = p.layout.copies@[n - 1];
        let tail = if p.cells_differ(cc.left, cc.right) {
            seq![Fault::Equality { copy: cc }]
        } else {
            Seq::empty()
        };
        assert(all_hold(p, tail));
        lemma_all_hold_concat(p, p.copy_faults(n - 1), tail);
    }
}

proof fn lemma_public_faults_hold(p: MockProver, n: int)
    ensures
        all_hold(p, p.public_faults(n)),
    decreases n,
{
    if n > 0 {
        lemma_public_faults_hold(p, n - 1);
        let b = p.layout.publics@[n - 1];
        let tail = if p.cells_differ(b.cell, b.instance) {
            seq![Fault::Public { binding: b }]
        } else {
            Seq::empty()
        };
        assert(all_hold(p, tail));
        lemma_all_hold_concat(p, p.public_faults(n - 1), tail);
    }
}

/// Every reported fault is a real one: a gate constraint that is a known
/// nonzero value, a lookup whose known inputs match no table row, or two
/// cells that should be equal and differ.
pub proof fn lemma_faults_hold(p: MockProver)
    ensures
        all_hold(p, p.faults()),
{
    let rows = p.table().rows as int;
    lemma_rows_faults_hold(p, rows);
    lemma_copy_faults_hold(p, p.layout.copies@.len() as int);
    lemma_public_faults_hold(p, p.layout.publics@.len() as int);
    lemma_all_hold_concat(p, p.rows_faults(rows), p.copy_faults(p.layout.copies@.len() as int));
    lemma_all_hold_concat(
        p,
        p.rows_faults(rows) + p.copy_faults(p.layout.copies@.len() as int),
        p.public_faults(p.layout.publics@.len() as int),
    );
}

/// Selectors decide where a gate applies: at a row where the selector
/// factor of a constraint is zero, that constraint is never reported,
/// whatever the other cells it reads hold, even if they are unassigned.
pub proof fn lemma_selector_off_no_violation(p: MockProver, g: int, c: int, row: int)
    requires
        p.constraint(g, c) matches Expression::Product(s, _) && eval(*s, p.table(), row) == Resolved::Known(0),
    ensures
        !p.faults().contains(Fault::Gate { gate: g, constraint: c, row }),
{
    lemma_faults_hold(p);
    if p.faults().contains(Fault::Gate { gate: g, constraint: c, row }) {
        let i = choose|i: int| 0 <= i < p.faults().len() && p.faults()[i] == Fault::Gate { gate: g, constraint: c, row };
        assert(fault_holds(p, p.faults()[i]));
    }
}

proof fn lemma_contains_concat(a: Seq<Fault>, b: Seq<Fault>, x: Fault)
    ensures
        a.contains(x) ==> (a + b).contains(x),
        b.contains(x) ==> (a + b).contains(x),
        (a + b).contains(x) ==> a.contains(x) || b.contains(x),
{
    if a.contains(x) {
        let i = choose|i: int| 0 <= i < a.len() && a[i] == x;
        assert((a + b)[i] == x);
    }
    if b.contains(x) {
        let i = choose|i: int| 0 <= i < b.len() && b[i] == x;
        assert((a + b)[a.len() + i] == x);
    }
    if (a + b).contains(x) {
        let i = choose|i: int| 0 <= i < (a + b).len() && (a + b)[i] == x;
        if i < a.len() {
            assert(a[i] == x);
        } else {
            assert(b[i - a.len()] == x);
        }
    }
}

proof fn lemma_lookup_faults_contain(p: MockProver, row: int, n: int, l: int)
    requires
        0 <= l < n,
        p.lookup_fault(l, row),
    ensures
        p.lookup_faults(row, n).contains(Fault::Lookup { lookup: l, row }),
    decreases n,
{
    let f = Fault::Lookup { lookup: l, row };
    let tail = if p.lookup_fault(n - 1, row) {
        seq![Fault::Lookup { lookup: n - 1, row }]
    } else {
        Seq::empty()
    };
    if l < n - 1 {
        lemma_lookup_faults_contain(p, row, n - 1, l);
        lemma_contains_concat(p.lookup_faults(row, n - 1), tail, f);
    } else {
        assert(tail[0] == f);
        lemma_contains_concat(p.lookup_faults(row, n - 1), tail, f);
    }
}

proof fn lemma_rows_faults_contain(p: MockProver, n: int, r: int, f: Fault)
    requires
        0 <= r < n,
        p.row_faults(r).contains(f),
    ensures
        p.rows_faults(n).contains(f),
    decreases n,
{
    if r < n - 1 {
        lemma_rows_faults_contain(p, n - 1, r, f);
    }
    lemma_contains_concat(p.rows_faults(n - 1), p.row_faults(n - 1), f);
}

proof fn lemma_copy_faults_contain(p: MockProver, n: int, i: int)
    requires
        0 <= i < n <= p.layout.copies@.len(),
        p.cells_differ(p.layout.copies@[i].left, p.layout.copies@[i].right),
    ensures
        p.copy_faults(n).contains(Fault::Equality { copy: p.layout.copies@[i] }),
    decreases n,
{
    let f = Fault::Equality { copy: p.layout.copies@[i] };
    let cc = p.layout.copies@[n - 1];
    let tail = if p.cells_differ(cc.left, cc.right) {
        seq![Fault::Equality { copy: cc }]
    } else {
        Seq::empty()
    };
    if i < n - 1 {
        lemma_copy_faults_contain(p, n - 1, i);
    } else {
        assert(tail[0] == f);
    }
    lemma_contains_concat(p.copy_faults(n - 1), tail, f);
}

/// When copy constraint `i` is the only one whose cells differ, the copy
/// faults are that one fault.
proof fn lemma_copy_faults_single(p: MockProver, n: int, i: int)
    requires
        0 <= n <= p.layout.copies@.len(),
        0 <= i < p.layout.copies@.len(),
        forall|j: int| 0 <= j < p.layout.copies@.len() && j != i ==> !p.cells_differ(
            #[trigger] p.layout.copies@[j].left,
            p.layout.copies@[j].right,
        ),
        p.cells_differ(p.layout.copies@[i].left, p.layout.copies@[i].right),
    ensures
        p.copy_faults(n) == if i < n {
            seq![Fault::Equality { copy: p.layout.copies@[i] }]
        } else {
            Seq::<Fault>::empty()
        },
    decreases n,
{
    if n > 0 {
        lemma_copy_faults_single(p, n - 1, i);
        let cc = p.layout.copies@[n - 1];
        if n - 1 == i {
            assert(p.copy_faults(n) =~= seq![Fault::Equality { copy: p.layout.copies@[i] }]);
        } else {
            assert(!p.cells_differ(cc.left, cc.right));
            assert(p.copy_faults(n) =~= p.copy_faults(n - 1));
        }
    }
}

/// Copy faults are all of kind `Equality`.
proof fn lemma_copy_faults_kind(p: MockProver, n: int)
    ensures
        forall|k: int| 0 <= k < p.copy_faults(n).len() ==> #[trigger] p.copy_faults(n)[k] is Equality,
    decreases n,
{
    if n > 0 {
        lemma_copy_faults_kind(p, n - 1);
        let a = p.copy_faults(n - 1);
        let b = p.copy_faults(n);
        assert forall|k: int| 0 <= k < b.len() implies #[trigger] b[k] is Equality by {
            if k < a.len() {
                assert(b[k] == a[k]);
            }
        }
    }
}

pub open spec fn equality_of(cc: CopyConstraint) -> Fault {
    Fault::Equality { copy: cc }
}

/// Public-input faults are all of kind `Public`.
proof fn lemma_public_faults_kind(p: MockProver, n: int)
    ensures
        forall|k: int| 0 <= k < p.public_faults(n).len() ==> #[trigger] p.public_faults(n)[k] is Public,
    decreases n,
{
    if n > 0 {
        lemma_public_faults_kind(p, n - 1);
        let a = p.public_faults(n - 1);
        let b = p.public_faults(n);
        assert forall|k: int| 0 <= k < b.len() implies #[trigger] b[k] is Public by {
            if k < a.len() {
                assert(b[k] == a[k]);
            }
        }
    }
}

/// A copy constraint whose two cells hold the same known value is never
/// reported. One whose cells hold different known values is reported; and
/// when it is the only copy constraint whose cells differ, it is the only
/// `Equality` fault of the table.
pub proof fn lemma_equality_roundtrip(p: MockProver, i: int)
    requires
        0 <= i < p.layout.copies@.len(),
    ensures
        p.copy_holds_known(i) ==> !p.faults().contains(equality_of(p.layout.copies@[i])),
        p.copy_breaks_known(i) ==> p.faults().contains(equality_of(p.layout.copies@[i])),
        p.copy_breaks_known(i) && p.only_copy_broken(i) ==> p.faults().filter(|f: Fault| f is Equality)
            == seq![equality_of(p.layout.copies@[i])],
{
    let cc = p.layout.copies@[i];
    let x = p.table().cell(cc.left.column, cc.left.row as int);
    let y = p.table().cell(cc.right.column, cc.right.row as int);
    let nc = p.layout.copies@.len() as int;
    let np = p.layout.publics@.len() as int;
    let rows = p.rows_faults(p.table().rows as int);
    let copies = p.copy_faults(nc);
    let publics = p.public_faults(np);
    lemma_faults_hold(p);
    if x is Known && x == y {
        if p.faults().contains(Fault::Equality { copy: cc }) {
            let k = choose|k: int| 0 <= k < p.faults().len() && p.faults()[k] == Fault::Equality { copy: cc };
            assert(fault_holds(p, p.faults()[k]));
        }
    }
    if x is Known && y is Known && x != y {
        lemma_copy_faults_contain(p, nc, i);
        lemma_contains_concat(rows, copies, Fault::Equality { copy: cc });
        lemma_contains_concat(rows + copies, publics, Fault::Equality { copy: cc });
        if p.only_copy_broken(i) {
            let pred = |f: Fault| f is Equality;
            lemma_copy_faults_single(p, nc, i);
            lemma_rows_faults_hold(p, p.table().rows as int);
            lemma_public_faults_kind(p, np);
            assert(p.faults() == rows + copies + publics);
            Seq::filter_distributes_over_add(rows + copies, publics, pred);
            Seq::filter_distributes_over_add(rows, copies, pred);
            lemma_filter_none(rows, pred);
            lemma_filter_none(publics, pred);
            lemma_filter_one(Fault::Equality { copy: cc }, pred);
            assert(rows.filter(pred) + copies.filter(pred) + publics.filter(pred) =~= seq![equality_of(cc)]);
        }
    }
}

/// Filtering out every element leaves nothing.
proof fn lemma_filter_none(s: Seq<Fault>, pred: spec_fn(Fault) -> bool)
    requires
        forall|i: int| 0 <= i < s.len() ==> !pred(#[trigger] s[i]),
    ensures
        s.filter(pred) == Seq::<Fault>::empty(),
    decreases s.len(),
{
    reveal(Seq::filter);
    if s.len() > 0 {
        assert forall|i: int| 0 <= i < s.drop_last().len() implies !pred(#[trigger] s.drop_last()[i]) by {
            assert(s.drop_last()[i] == s[i]);
        }
        lemma_filter_none(s.drop_last(), pred);
        assert(!pred(s[s.len() - 1]));
    }
}

/// Filtering a one-element sequence that passes keeps it.
proof fn lemma_filter_one(x: Fault, pred: spec_fn(Fault) -> bool)
    requires
        pred(x),
    ensures
        seq![x].filter(pred) == seq![x],
{
    reveal_with_fuel(Seq::filter, 2);
    assert(seq![x].drop_last() =~= Seq::<Fault>::empty());
    assert(Seq::<Fault>::empty().filter(pred) == Seq::<Fault>::empty());
    assert(seq![x].filter(pred) =~= seq![x]);
}

pub open spec fn lookup_at(l: int, row: int) -> Fault {
    Fault::Lookup { lookup: l, row }
}

/// `f` stands in `s` at exactly one index.
pub open spec fn listed_once(s: Seq<Fault>, f: Fault) -> bool {
    exists|k: int| 0 <= k < s.len() && s[k] == f && forall|m: int| 0 <= m < s.len() && #[trigger] s[m] == f ==> m == k
}

/// A lookup is reported at a row exactly when its inputs there are known
/// and match no row of its table, and then exactly once. In particular, for a lookup of one input
/// in a table column whose loaded values all lie below `range`, an input
/// equal to `range` is reported, while an input that some table row holds
/// is not.
pub proof fn lemma_lookup_completeness(p: MockProver, l: int, row: int, range: nat)
    requires
        0 <= l < p.cs.lookups@.len(),
        0 <= row < p.table().rows,
    ensures
        p.faults().contains(lookup_at(l, row)) <==> p.lookup_fault(l, row),
        p.lookup_fault(l, row) ==> listed_once(p.faults(), lookup_at(l, row)),
        p.input_beyond_table(l, row, range) ==> p.faults().contains(lookup_at(l, row)),
        p.input_in_table(l, row) ==> !p.faults().contains(lookup_at(l, row)),
{
    let f = Fault::Lookup { lookup: l, row };
    let nc = p.layout.copies@.len() as int;
    let np = p.layout.publics@.len() as int;
    let rows = p.rows_faults(p.table().rows as int);
    lemma_faults_hold(p);
    if p.faults().contains(f) {
        let k = choose|k: int| 0 <= k < p.faults().len() && p.faults()[k] == f;
        assert(fault_holds(p, p.faults()[k]));
    }
    if p.lookup_fault(l, row) {
        let ng = p.cs.gates@.len() as int;
        let nl = p.cs.lookups@.len() as int;
        lemma_lookup_faults_contain(p, row, nl, l);
        lemma_contains_concat(p.gate_faults(row, ng), p.lookup_faults(row, nl), f);
        lemma_rows_faults_contain(p, p.table().rows as int, row, f);
        lemma_contains_concat(rows, p.copy_faults(nc), f);
        lemma_contains_concat(rows + p.copy_faults(nc), p.public_faults(np), f);
        lemma_rows_faults_sorted(p, p.table().rows as int);
        lemma_copy_faults_kind(p, nc);
        lemma_public_faults_kind(p, np);
        let copies = p.copy_faults(nc);
        let publics = p.public_faults(np);
        assert(p.faults() == rows + copies + publics);
        lemma_contains_concat(rows, copies, f);
        lemma_contains_concat(rows + copies, publics, f);
        assert(!copies.contains(f)) by {
            if copies.contains(f) {
                let j = choose|j: int| 0 <= j < copies.len() && copies[j] == f;
                assert(copies[j] is Equality);
            }
        }
        assert(!publics.contains(f)) by {
            if publics.contains(f) {
                let j = choose|j: int| 0 <= j < publics.len() && publics[j] == f;
                assert(publics[j] is Public);
            }
        }
        let k = choose|k: int| 0 <= k < rows.len() && rows[k] == f;
        assert(p.faults()[k] == f);
        assert forall|m: int| 0 <= m < p.faults().len() && #[trigger] p.faults()[m] == f implies m == k by {
            if m < rows.len() {
                assert(p.faults()[m] == rows[m]);
                if m < k {
                    assert(fault_lt(rows[m], rows[k]));
                } else if m > k {
                    assert(fault_lt(rows[k], rows[m]));
                }
            } else if m < rows.len() + copies.len() {
                assert(p.faults()[m] == copies[m - rows.len()]);
            } else {
                assert(p.faults()[m] == publics[m - rows.len() - copies.len()]);
            }
        }
    }
    let lk = p.cs.lookups@[l];
    if p.input_beyond_table(l, row, range) {
        assert(p.inputs_known(l, row));
        assert forall|t: int| 0 <= t < p.table().rows implies !#[trigger] p.table_row_matches(l, row, t) by {
            if p.table_row_matches(l, row, t) {
                assert(p.table().cell(lk.table@[0], t) == eval(lk.inputs@[0], p.table(), row));
            }
        }
    }
    if p.input_in_table(l, row) {
        let t = choose|t: int| 0 <= t < p.table().rows
            && #[trigger] p.table().cell(lk.table@[0], t) == eval(lk.inputs@[0], p.table(), row);
        assert(p.table_row_matches(l, row, t));
    }
}

/// The order in which gate and lookup faults are listed: by row, then gates
/// before lookups, each by declaration.
pub open spec fn fault_lt(a: Fault, b: Fault) -> bool {
    match (a, b) {
        (Fault::Gate { gate: g1, constraint: c1, row: r1 }, Fault::Gate { gate: g2, constraint: c2, row: r2 }) => r1 < r2
            || (r1 == r2 && (g1 < g2 || (g1 == g2 && c1 < c2))),
        (Fault::Gate { row: r1, .. }, Fault::Lookup { row: r2, .. }) => r1 <= r2,
        (Fault::Lookup { row: r1, .. }, Fault::Gate { row: r2, .. }) => r1 < r2,
        (Fault::Lookup { lookup: l1, row: r1 }, Fault::Lookup { lookup: l2, row: r2 }) => r1 < r2 || (r1 == r2 && l1 < l2),
        _ => false,
    }
}

pub open spec fn sorted(s: Seq<Fault>) -> bool {
    forall|i: int, j: int| 0 <= i < j < s.len() ==> fault_lt(#[trigger] s[i], #[trigger] s[j])
}

proof fn lemma_sorted_concat(a: Seq<Fault>, b: Seq<Fault>)
    requires
        sorted(a),
        sorted(b),
        forall|i: int, j: int| 0 <= i < a.len() && 0 <= j < b.len() ==> fault_lt(#[trigger] a[i], #[trigger] b[j]),
    ensures
        sorted(a + b),
{
    let c = a + b;
    assert forall|i: int, j: int| 0 <= i < j < c.len() implies fault_lt(#[trigger] c[i], #[trigger] c[j]) by {
        if j < a.len() {
            assert(c[i] == a[i] && c[j] == a[j]);
        } else if i >= a.len() {
            assert(c[i] == b[i - a.len()] && c[j] == b[j - a.len()]);
        } else {
            assert(c[i] == a[i] && c[j] == b[j - a.len()]);
        }
    }
}

proof fn lemma_constraint_faults_sorted(p: MockProver, row: int, g: int, n: int)
    ensures
        sorted(p.constraint_faults(row, g, n)),
        forall|i: int| 0 <= i < p.constraint_faults(row, g, n).len() ==> (#[trigger] p.constraint_faults(row, g, n)[i] matches Fault::Gate { gate, constraint, row: r }
            && gate == g && r == row && constraint < n),
    decreases n,
{
    if n > 0 {
        lemma_constraint_faults_sorted(p, row, g, n - 1);
        let a = p.constraint_faults(row, g, n - 1);
        let b = if p.gate_fault(g, n - 1, row) {
            seq![Fault::Gate { gate: g, constraint: n - 1, row }]
        } else {
            Seq::empty()
        };
        lemma_sorted_concat(a, b);
        let c = p.constraint_faults(row, g, n);
        assert forall|i: int| 0 <= i < c.len() implies (#[trigger] c[i] matches Fault::Gate { gate, constraint, row: r }
            && gate == g && r == row && constraint < n) by {
            if i < a.len() {
                assert(c[i] == a[i]);
            } else {
                assert(c[i] == b[i - a.len()]);
            }
        }
    }
}

proof fn lemma_gate_faults_sorted(p: MockProver, row: int, n: int)
    ensures
        sorted(p.gate_faults(row, n)),
        forall|i: int| 0 <= i < p.gate_faults(row, n).len() ==> (#[trigger] p.gate_faults(row, n)[i] matches Fault::Gate { gate, row: r, .. }
            && r == row && gate < n),
    decreases n,
{
    if n > 0 {
        lemma_gate_faults_sorted(p, row, n - 1);
        let m = p.cs.gates@[n - 1].constraints@.len() as int;
        lemma_constraint_faults_sorted(p, row, n - 1, m);
        let a = p.gate_faults(row, n - 1);
        let b = p.constraint_faults(row, n - 1, m);
        assert forall|i: int, j: int| 0 <= i < a.len() && 0 <= j < b.len() implies fault_lt(#[trigger] a[i], #[trigger] b[j]) by {}
        lemma_sorted_concat(a, b);
        let c = p.gate_faults(row, n);
        assert forall|i: int| 0 <= i < c.len() implies (#[trigger] c[i] matches Fault::Gate { gate, row: r, .. } && r == row && gate < n) by {
            if i < a.len() {
                assert(c[i] == a[i]);
            } else {
                assert(c[i] == b[i - a.len()]);
            }
        }
    }
}

proof fn lemma_lookup_faults_sorted(p: MockProver, row: int, n: int)
    ensures
        sorted(p.lookup_faults(row, n)),
        forall|i: int| 0 <= i < p.lookup_faults(row, n).len() ==> (#[trigger] p.lookup_faults(row, n)[i] matches Fault::Lookup { lookup, row: r }
            && r == row && lookup < n),
    decreases n,
{
    if n > 0 {
        lemma_lookup_faults_sorted(p, row, n - 1);
        let a = p.lookup_faults(row, n - 1);
        let b = if p.lookup_fault(n - 1, row) {
            seq![Fault::Lookup { lookup: n - 1, row }]
        } else {
            Seq::empty()
        };
        lemma_sorted_concat(a, b);
        let c = p.lookup_faults(row, n);
        assert forall|i: int| 0 <= i < c.len() implies (#[trigger] c[i] matches Fault::Lookup { lookup, row: r } && r == row && lookup < n) by {
            if i < a.len() {
                assert(c[i] == a[i]);
            } else {
                assert(c[i] == b[i - a.len()]);
            }
        }
    }
}

/// Gate and lookup faults are listed in strictly increasing order, so none
/// is listed twice.
proof fn lemma_rows_faults_sorted(p: MockProver, n: int)
    ensures
        sorted(p.rows_faults(n)),
        forall|i: int| 0 <= i < p.rows_faults(n).len() ==> match #[trigger] p.rows_faults(n)[i] {
            Fault::Gate { row, .. } => row < n,
            Fault::Lookup { row, .. } => row < n,
            _ => false,
        },
    decreases n,
{
    if n > 0 {
        lemma_rows_faults_sorted(p, n - 1);
        let row = n - 1;
        let ng = p.cs.gates@.len() as int;
        let nl = p.cs.lookups@.len() as int;
        lemma_gate_faults_sorted(p, row, ng);
        lemma_lookup_faults_sorted(p, row, nl);
        let ga = p.gate_faults(row, ng);
        let lo = p.lookup_faults(row, nl);
        assert forall|i: int, j: int| 0 <= i < ga.len() && 0 <= j < lo.len() implies fault_lt(#[trigger] ga[i], #[trigger] lo[j]) by {}
        lemma_sorted_concat(ga, lo);
        let b = p.row_faults(row);
        assert forall|i: int| 0 <= i < b.len() implies match #[trigger] b[i] {
            Fault::Gate { row: r, .. } => r == row,
            Fault::Lookup { row: r, .. } => r == row,
            _ => false,
        } by {
            if i < ga.len() {
                assert(b[i] == ga[i]);
            } else {
                assert(b[i] == lo[i - ga.len()]);
            }
        }
        let a = p.rows_faults(n - 1);
        assert forall|i: int, j: int| 0 <= i < a.len() && 0 <= j < b.len() implies fault_lt(#[trigger] a[i], #[trigger] b[j]) by {}
        lemma_sorted_concat(a, b);
        let c = p.rows_faults(n);
        assert forall|i: int| 0 <= i < c.len() implies match #[trigger] c[i] {
            Fault::Gate { row, .. } => row < n,
            Fault::Lookup { row, .. } => row < n,
            _ => false,
        } by {
            if i < a.len() {
                assert(c[i] == a[i]);
            } else {
                assert(c[i] == b[i - a.len()]);
            }
        }
    }
}

/// For a registry of one gate with one constraint and no lookup, the rows
/// report nothing when that constraint fails on none of them.
pub proof fn lemma_single_gate_rows_clean(p: MockProver, n: int)
    requires
        p.cs.gates@.len() == 1,
        p.cs.gates@[0].constraints@.len() == 1,
        p.cs.lookups@.len() == 0,
        forall|row: int| 0 <= row < n ==> !#[trigger] p.gate_fault(0, 0, row),
    ensures
        p.rows_faults(n) == Seq::<Fault>::empty(),
    decreases n,
{
    if n > 0 {
        lemma_single_gate_rows_clean(p, n - 1);
        let row = n - 1;
        assert(!p.gate_fault(0, 0, row));
        assert(p.constraint_faults(row, 0, 0) == Seq::<Fault>::empty());
        assert(p.constraint_faults(row, 0, 1) =~= Seq::<Fault>::empty());
        assert(p.gate_faults(row, 0) == Seq::<Fault>::empty());
        assert(p.gate_faults(row, 1) =~= Seq::<Fault>::empty());
        assert(p.lookup_faults(row, 0) == Seq::<Fault>::empty());
        assert(p.row_faults(row) =~= Seq::<Fault>::empty());
        assert(p.rows_faults(n) =~= Seq::<Fault>::empty());
    }
}

/// Copy constraints whose cells hold the same known value report nothing.
pub proof fn lemma_copies_clean(p: MockProver, n: int)
    requires
        n <= p.layout.copies@.len(),
        forall|k: int| 0 <= k < n ==> copy_clean(p.table(), #[trigger] p.layout.copies@[k]),
    ensures
        p.copy_faults(n) == Seq::<Fault>::empty(),
    decreases n,
{
    if n > 0 {
        lemma_copies_clean(p, n - 1);
        assert(copy_clean(p.table(), p.layout.copies@[n - 1]));
        assert(p.copy_faults(n) =~= Seq::<Fault>::empty());
    }
}

/// For a registry of one gate with one constraint and no lookup, when that
/// constraint fails at row `start` alone, the rows report exactly that.
pub proof fn lemma_single_gate_rows_one(p: MockProver, n: int, start: int)
    requires
        p.cs.gates@.len() == 1,
        p.cs.gates@[0].constraints@.len() == 1,
        p.cs.lookups@.len() == 0,
        0 <= start,
        forall|row: int| 0 <= row < n ==> (#[trigger] p.gate_fault(0, 0, row) <==> row == start),
    ensures
        p.rows_faults(n) == if start < n {
            seq![Fault::Gate { gate: 0, constraint: 0, row: start }]
        } else {
            Seq::<Fault>::empty()
        },
    decreases n,
{
    if n > 0 {
        lemma_single_gate_rows_one(p, n - 1, start);
        let row = n - 1;
        let f = p.gate_fault(0, 0, row);
        assert(p.constraint_faults(row, 0, 0) == Seq::<Fault>::empty());
        assert(p.gate_faults(row, 0) == Seq::<Fault>::empty());
        assert(p.lookup_faults(row, 0) == Seq::<Fault>::empty());
        if f {
            assert(p.constraint_faults(row, 0, 1) =~= seq![Fault::Gate { gate: 0, constraint: 0, row }]);
        } else {
            assert(p.constraint_faults(row, 0, 1) =~= Seq::<Fault>::empty());
        }
        assert(p.gate_faults(row, 1) =~= p.constraint_faults(row, 0, 1));
        assert(p.row_faults(row) =~= p.constraint_faults(row, 0, 1));
        assert(p.rows_faults(n) =~= p.rows_faults(n - 1) + p.row_faults(row));
        if start < n {
            assert(p.rows_faults(n) =~= seq![Fault::Gate { gate: 0, constraint: 0, row: start }]);
        } else {
            assert(p.rows_faults(n) =~= Seq::<Fault>::empty());
        }
    }
}

} // verus!
