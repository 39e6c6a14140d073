//! The configuration registry: columns, selectors, gates, lookup arguments
//! and the columns that take part in copy constraints.

use crate::error::Error;
use crate::expression::{all_columns, expr_view, ExprView, Expression, Rotation};
use crate::table::{Column, ColumnKind};
use vstd::prelude::*;

verus! {

/// What a fixed column is used for.
#[derive(Clone, Copy, Debug, PartialEq, Eq, Structural)]
pub enum FixedUse {
    Plain,
    Selector,
    ComplexSelector,
}

/// A selector: a fixed column that holds 1 on the rows where it is enabled
/// and 0 elsewhere.
#[derive(Clone, Copy, Debug, PartialEq, Eq, Structural)]
pub struct Selector {
    pub column: usize,
    pub complex: bool,
}

/// A named set of constraints; each must vanish on every row.
#[derive(Debug, PartialEq, Eq)]
pub struct Gate {
    pub name: String,
    pub constraints: Vec<Expression>,
}

/// A named lookup: at every row, the values of `inputs` must form a row of
/// the `table` columns.
#[derive(Debug, PartialEq, Eq)]
pub struct Lookup {
    pub name: String,
    pub inputs: Vec<Expression>,
    pub table: Vec<Column>,
}

/// What a registry declares, as plain values: the column counts, the use of
/// each fixed column, the equality-enabled columns, and each gate and
/// lookup with its name.
pub struct Shape {
    pub num_advice: nat,
    pub num_instance: nat,
    pub num_table: nat,
    pub fixed: Seq<FixedUse>,
    pub equality: Seq<Column>,
    pub gates: Seq<(Seq<char>, Seq<ExprView>)>,
    pub lookups: Seq<(Seq<char>, Seq<ExprView>, Seq<Column>)>,
}

pub open spec fn views_of(s: Seq<Expression>) -> Seq<ExprView> {
    s.map_values(|e: Expression| expr_view(e))
}

#[derive(Debug, PartialEq, Eq)]
pub struct ConstraintSystem {
    pub num_advice: usize,
    pub num_instance: usize,
    pub num_table: usize,
    pub fixed: Vec<FixedUse>,
    pub equality: Vec<Column>,
    pub gates: Vec<Gate>,
    pub lookups: Vec<Lookup>,
}

impl ConstraintSystem {
    pub open spec fn shape(self) -> Shape {
        Shape {
            num_advice: self.num_advice as nat,
            num_instance: self.num_instance as nat,
            num_table: self.num_table as nat,
            fixed: self.fixed@,
            equality: self.equality@,
            gates: self.gates@.map_values(|g: Gate| (g.name@, views_of(g.constraints@))),
            lookups: self.lookups@.map_values(|l: Lookup| (l.name@, views_of(l.inputs@), l.table@)),
        }
    }

    pub open spec fn count(self, kind: ColumnKind) -> nat {
        match kind {
            ColumnKind::Advice => self.num_advice as nat,
            ColumnKind::Fixed => self.fixed@.len(),
            ColumnKind::Instance => self.num_instance as nat,
            ColumnKind::Table => self.num_table as nat,
        }
    }

    pub open spec fn declared(self, c: Column) -> bool {
        c.index < self.count(c.kind)
    }

    /// A column that a gate may read.
    pub open spec fn gate_column(self, c: Column) -> bool {
        self.declared(c) && c.kind != ColumnKind::Table
    }

    /// A column that a lookup input may read: a plain selector is refused.
    pub open spec fn input_column(self, c: Column) -> bool {
        self.gate_column(c) && !(c.kind == ColumnKind::Fixed && self.fixed@[c.index as int]
            == FixedUse::Selector)
    }

    pub open spec fn gate_ok(self, e: Expression) -> bool {
        all_columns(e, |c: Column| self.gate_column(c))
    }

    pub open spec fn input_ok(self, e: Expression) -> bool {
        all_columns(e, |c: Column| self.input_column(c))
    }

    pub open spec fn equality_enabled(self, c: Column) -> bool {
        self.equality@.contains(c)
    }

    pub open spec fn wf(self) -> bool {
        &&& forall|i: int| 0 <= i < self.equality@.len() ==> {
            let c = #[trigger] self.equality@[i];
            self.declared(c) && (c.kind == ColumnKind::Advice || c.kind == ColumnKind::Instance)
        }
        &&& forall|g: int, i: int|
            0 <= g < self.gates@.len() && 0 <= i < self.gates@[g].constraints@.len()
                ==> self.gate_ok(#[trigger] self.gates@[g].constraints@[i])
        &&& forall|l: int| 0 <= l < self.lookups@.len() ==> self.lookup_ok(#[trigger] self.lookups@[l])
    }

    pub open spec fn lookup_ok(self, l: Lookup) -> bool {
        &&& l.inputs@.len() == l.table@.len()
        &&& forall|i: int| 0 <= i < l.inputs@.len() ==> self.input_ok(#[trigger] l.inputs@[i])
        &&& forall|i: int|
            0 <= i < l.table@.len() ==> {
                let c = #[trigger] l.table@[i];
                c.kind == ColumnKind::Table && self.declared(c)
            }
    }

    /// `other` is `self` with the fields given unchanged.
    pub open spec fn same_columns(self, other: ConstraintSystem) -> bool {
        &&& other.num_advice == self.num_advice
        &&& other.num_instance == self.num_instance
        &&& other.num_table == self.num_table
        &&& other.fixed@ == self.fixed@
    }

    /// An empty registry.
    pub fn new() -> (cs: ConstraintSystem)
        ensures
            cs.wf(),
            cs.num_advice == 0,
            cs.num_instance == 0,
            cs.num_table == 0,
            cs.fixed@.len() == 0,
            cs.equality@.len() == 0,
            cs.gates@.len() == 0,
            cs.lookups@.len() == 0,
    {
        ConstraintSystem {
            num_advice: 0,
            num_instance: 0,
            num_table: 0,
            fixed: Vec::new(),
            equality: Vec::new(),
            gates: Vec::new(),
            lookups: Vec::new(),
        }
    }

    pub fn advice_column(&mut self) -> (c: Column)
        requires
            old(self).wf(),
            old(self).num_advice < usize::MAX,
        ensures
            final(self).wf(),
            c == (Column { kind: ColumnKind::Advice, index: old(self).num_advice }),
            *final(self) == (ConstraintSystem { num_advice: (old(self).num_advice + 1) as usize, ..*old(self) }),
    {
        let c = Column { kind: ColumnKind::Advice, index: self.num_advice };
        self.num_advice = self.num_advice + 1;
        proof { self.lemma_grow(*old(self)); }
        c
    }

    pub fn instance_column(&mut self) -> (c: Column)
        requires
            old(self).wf(),
            old(self).num_instance < usize::MAX,
        ensures
            final(self).wf(),
            c == (Column { kind: ColumnKind::Instance, index: old(self).num_instance }),
            *final(self) == (ConstraintSystem { num_instance: (old(self).num_instance + 1) as usize, ..*old(self) }),
    {
        let c = Column { kind: ColumnKind::Instance, index: self.num_instance };
        self.num_instance = self.num_instance + 1;
        proof { self.lemma_grow(*old(self)); }
        c
    }

    pub fn lookup_table_column(&mut self) -> (c: Column)
        requires
            old(self).wf(),
            old(self).num_table < usize::MAX,
        ensures
            final(self).wf(),
            c == (Column { kind: ColumnKind::Table, index: old(self).num_table }),
            *final(self) == (ConstraintSystem { num_table: (old(self).num_table + 1) as usize, ..*old(self) }),
    {
        let c = Column { kind: ColumnKind::Table, index: self.num_table };
        self.num_table = self.num_table + 1;
        proof { self.lemma_grow(*old(self)); }
        c
    }

    fn new_fixed(&mut self, u: FixedUse) -> (i: usize)
        requires
            old(self).wf(),
            old(self).fixed@.len() < usize::MAX,
        ensures
            final(self).wf(),
            i == old(self).fixed@.len(),
            final(self).fixed@ == old(self).fixed@.push(u),
            *final(self) == (ConstraintSystem { fixed: final(self).fixed, ..*old(self) }),
    {
        let i = self.fixed.len();
        self.fixed.push(u);
        proof { self.lemma_grow(*old(self)); }
        i
    }

    pub fn fixed_column(&mut self) -> (c: Column)
        requires
            old(self).wf(),
            old(self).fixed@.len() < usize::MAX,
        ensures
            final(self).wf(),
            c == (Column { kind: ColumnKind::Fixed, index: old(self).fixed@.len() as usize }),
            final(self).fixed@ == old(self).fixed@.push(FixedUse::Plain),
            *final(self) == (ConstraintSystem { fixed: final(self).fixed, ..*old(self) }),
    {
        let i = self.new_fixed(FixedUse::Plain);
        Column { kind: ColumnKind::Fixed, index: i }
    }

    /// A selector that may not appear in lookup inputs.
    pub fn selector(&mut self) -> (s: Selector)
        requires
            old(self).wf(),
            old(self).fixed@.len() < usize::MAX,
        ensures
            final(self).wf(),
            s == (Selector { column: old(self).fixed@.len() as usize, complex: false }),
            final(self).fixed@ == old(self).fixed@.push(FixedUse::Selector),
            *final(self) == (ConstraintSystem { fixed: final(self).fixed, ..*old(self) }),
    {
        let i = self.new_fixed(FixedUse::Selector);
        Selector { column: i, complex: false }
    }

    /// A selector that lookup inputs may read.
    pub fn complex_selector(&mut self) -> (s: Selector)
        requires
            old(self).wf(),
            old(self).fixed@.len() < usize::MAX,
        ensures
            final(self).wf(),
            s == (Selector { column: old(self).fixed@.len() as usize, complex: true }),
            final(self).fixed@ == old(self).fixed@.push(FixedUse::ComplexSelector),
            *final(self) == (ConstraintSystem { fixed: final(self).fixed, ..*old(self) }),
    {
        let i = self.new_fixed(FixedUse::ComplexSelector);
        Selector { column: i, complex: true }
    }

    /// Declaring more columns keeps every expression and lookup that was
    /// acceptable acceptable.
    pub proof fn lemma_columns_grow(self, old: ConstraintSystem)
        requires
            self.num_advice >= old.num_advice,
            self.num_instance >= old.num_instance,
            self.num_table >= old.num_table,
            self.fixed@.len() >= old.fixed@.len(),
            forall|i: int| 0 <= i < old.fixed@.len() ==> self.fixed@[i] == old.fixed@[i],
        ensures
            forall|c: Column| old.declared(c) ==> #[trigger] self.declared(c),
            forall|e: Expression| old.gate_ok(e) ==> #[trigger] self.gate_ok(e),
            forall|e: Expression| old.input_ok(e) ==> #[trigger] self.input_ok(e),
            forall|l: Lookup| old.lookup_ok(l) ==> #[trigger] self.lookup_ok(l),
    {
        assert forall|c: Column| old.gate_column(c) implies self.gate_column(c) by {}
        assert forall|c: Column| old.input_column(c) implies self.input_column(c) by {}
        assert forall|e: Expression| old.gate_ok(e) implies #[trigger] self.gate_ok(e) by {
            lemma_all_columns_weaken(e, |c: Column| old.gate_column(c), |c: Column| self.gate_column(c));
        }
        assert forall|e: Expression| old.input_ok(e) implies #[trigger] self.input_ok(e) by {
            lemma_all_columns_weaken(e, |c: Column| old.input_column(c), |c: Column| self.input_column(c));
        }
        assert forall|l: Lookup| old.lookup_ok(l) implies #[trigger] self.lookup_ok(l) by {
            assert forall|i: int| 0 <= i < l.inputs@.len() implies self.input_ok(#[trigger] l.inputs@[i]) by {
                assert(old.input_ok(l.inputs@[i]));
            }
        }
    }

    /// Growing the column counts keeps what was well formed.
    proof fn lemma_grow(self, old: ConstraintSystem)
        requires
            old.wf(),
            self.num_advice >= old.num_advice,
            self.num_instance >= old.num_instance,
            self.num_table >= old.num_table,
            self.fixed@.len() >= old.fixed@.len(),
            forall|i: int| 0 <= i < old.fixed@.len() ==> self.fixed@[i] == old.fixed@[i],
            self.equality == old.equality,
            self.gates == old.gates,
            self.lookups == old.lookups,
        ensures
            self.wf(),
    {
        self.lemma_columns_grow(old);
        assert forall|l: int| 0 <= l < self.lookups@.len() implies self.lookup_ok(#[trigger] self.lookups@[l]) by {
            assert(old.lookup_ok(old.lookups@[l]));
        }
        assert forall|g: int, i: int|
            0 <= g < self.gates@.len() && 0 <= i < self.gates@[g].constraints@.len()
                implies self.gate_ok(#[trigger] self.gates@[g].constraints@[i]) by {
            assert(old.gate_ok(old.gates@[g].constraints@[i]));
        }
    }

    fn is_declared(&self, c: Column) -> (r: bool)
        ensures
            r == self.declared(c),
    {
        match c.kind {
            ColumnKind::Advice => c.index < self.num_advice,
            ColumnKind::Fixed => c.index < self.fixed.len(),
            ColumnKind::Instance => c.index < self.num_instance,
            ColumnKind::Table => c.index < self.num_table,
        }
    }

    /// Whether copy constraints may name column `c`.
    pub fn is_equality_enabled(&self, c: Column) -> (r: bool)
        ensures
            r == self.equality_enabled(c),
    {
        column_listed(&self.equality, c)
    }

    /// Lets copy constraints name column `c`; only advice and instance
    /// columns qualify.
    pub fn enable_equality(&mut self, c: Column) -> (r: Result<(), Error>)
        requires
            old(self).wf(),
        ensures
            final(self).wf(),
            match r {
                Ok(()) => {
                    &&& old(self).declared(c)
                    &&& (c.kind == ColumnKind::Advice || c.kind == ColumnKind::Instance)
                    &&& final(self).equality_enabled(c)
                    &&& *final(self) == if old(self).equality_enabled(c) {
                        *old(self)
                    } else {
                        ConstraintSystem { equality: final(self).equality, ..*old(self) }
                    }
                    &&& final(self).equality@ == if old(self).equality_enabled(c) {
                        old(self).equality@
                    } else {
                        old(self).equality@.push(c)
                    }
                },
                Err(e) => {
                    &&& *final(self) == *old(self)
                    &&& e == if !old(self).declared(c) {
                        Error::ColumnNotDeclared(c)
                    } else {
                        Error::EqualityNotSupported(c)
                    }
                    &&& (!old(self).declared(c) || (c.kind != ColumnKind::Advice && c.kind
                        != ColumnKind::Instance))
                },
            },
    {
        if !self.is_declared(c) {
            return Err(Error::ColumnNotDeclared(c));
        }
        match c.kind {
            ColumnKind::Advice | ColumnKind::Instance => {},
            _ => {
                return Err(Error::EqualityNotSupported(c));
            },
        }
        if !self.is_equality_enabled(c) {
            self.equality.push(c);
            proof {
                self.lemma_columns_grow(*old(self));
                assert forall|g: int, i: int|
                    0 <= g < self.gates@.len() && 0 <= i < self.gates@[g].constraints@.len()
                        implies self.gate_ok(#[trigger] self.gates@[g].constraints@[i]) by {
                    assert(old(self).gate_ok(old(self).gates@[g].constraints@[i]));
                }
                assert forall|l: int| 0 <= l < self.lookups@.len() implies self.lookup_ok(#[trigger] self.lookups@[l]) by {
                    assert(old(self).lookup_ok(old(self).lookups@[l]));
                }
                assert(self.equality@.last() == c);
                assert(self.equality@.contains(c));
                assert forall|i: int| 0 <= i < self.equality@.len() implies {
                    let d = #[trigger] self.equality@[i];
                    self.declared(d) && (d.kind == ColumnKind::Advice || d.kind == ColumnKind::Instance)
                } by {
                    if i < old(self).equality@.len() {
                        assert(old(self).equality@[i] == self.equality@[i]);
                    }
                }
            }
        }
        Ok(())
    }

    /// Whether every column that `e` reads may be read by a gate, or by a
    /// lookup input.
    fn check_columns(&self, e: &Expression, for_lookup: bool) -> (r: bool)
        ensures
            for_lookup ==> r == self.input_ok(*e),
            !for_lookup ==> r == self.gate_ok(*e),
        decreases e,
    {
        match e {
            Expression::Constant(_) => true,
            Expression::Cell(c, _) => {
                if !self.is_declared(*c) {
                    false
                } else {
                    match c.kind {
                        ColumnKind::Table => false,
                        ColumnKind::Fixed => !for_lookup || self.fixed[c.index] != FixedUse::Selector,
                        _ => true,
                    }
                }
            },
            Expression::Negated(a) => self.check_columns(a, for_lookup),
            Expression::Sum(a, b) => self.check_columns(a, for_lookup) && self.check_columns(b, for_lookup),
            Expression::Product(a, b) => self.check_columns(a, for_lookup) && self.check_columns(b, for_lookup),
            Expression::Scaled(a, _) => self.check_columns(a, for_lookup),
        }
    }

    /// Registers a gate whose constraints must vanish on every row; each
    /// constraint is expected to carry its selector as a factor.
    pub fn create_gate(&mut self, name: String, constraints: Vec<Expression>) -> (r: Result<(), Error>)
        requires
            old(self).wf(),
        ensures
            final(self).wf(),
            r is Ok <==> forall|i: int| 0 <= i < constraints@.len() ==> old(self).gate_ok(#[trigger] constraints@[i]),
            r is Ok ==> final(self).gates@ == old(self).gates@.push(Gate { name, constraints })
                && *final(self) == (ConstraintSystem { gates: final(self).gates, ..*old(self) }),
            r is Err ==> *final(self) == *old(self) && r == Err::<(), Error>(Error::MalformedArgument),
    {
        let mut i: usize = 0;
        while i < constraints.len()
            invariant
                i <= constraints@.len(),
                forall|j: int| 0 <= j < i ==> self.gate_ok(#[trigger] constraints@[j]),
                self.wf(),
                *self == *old(self),
            decreases constraints@.len() - i,
        {
            if !self.check_columns(&constraints[i], false) {
                return Err(Error::MalformedArgument);
            }
            i = i + 1;
        }
        let ghost g = Gate { name, constraints };
        self.gates.push(Gate { name, constraints });
        proof {
            assert(self.gates@.last() == g);
            self.lemma_columns_grow(*old(self));
            assert forall|l: int| 0 <= l < self.lookups@.len() implies self.lookup_ok(#[trigger] self.lookups@[l]) by {
                assert(old(self).lookup_ok(old(self).lookups@[l]));
            }
            assert forall|g: int, i: int|
                0 <= g < self.gates@.len() && 0 <= i < self.gates@[g].constraints@.len()
                    implies self.gate_ok(#[trigger] self.gates@[g].constraints@[i]) by {
                if g < old(self).gates@.len() {
                    assert(old(self).gates@[g] == self.gates@[g]);
                    assert(old(self).gate_ok(old(self).gates@[g].constraints@[i]));
                }
            }
        }
        Ok(())
    }

    /// Registers a lookup argument: the values of `inputs` at a row must
    /// form a row of the `table` columns, taken in the same order.
    pub fn lookup(&mut self, name: String, inputs: Vec<Expression>, table: Vec<Column>) -> (r: Result<(), Error>)
        requires
            old(self).wf(),
        ensures
            final(self).wf(),
            r is Ok <==> old(self).lookup_ok(Lookup { name, inputs, table }),
            r is Ok ==> final(self).lookups@ == old(self).lookups@.push(Lookup { name, inputs, table })
                && *final(self) == (ConstraintSystem { lookups: final(self).lookups, ..*old(self) }),
            r is Err ==> *final(self) == *old(self) && r == Err::<(), Error>(Error::MalformedArgument),
    {
        if inputs.len() != table.len() {
            return Err(Error::MalformedArgument);
        }
        let mut i: usize = 0;
        while i < inputs.len()
            invariant
                i <= inputs@.len(),
                inputs@.len() == table@.len(),
                forall|j: int| 0 <= j < i ==> self.input_ok(#[trigger] inputs@[j]),
                forall|j: int| 0 <= j < i ==> {
                    let c = #[trigger] table@[j];
                    c.kind == ColumnKind::Table && self.declared(c)
                },
                self.wf(),
                *self == *old(self),
            decreases inputs@.len() - i,
        {
            let c = table[i];
            if !self.check_columns(&inputs[i], true) || c.kind != ColumnKind::Table || !self.is_declared(c) {
                return Err(Error::MalformedArgument);
            }
            i = i + 1;
        }
        let ghost l = Lookup { name, inputs, table };
        self.lookups.push(Lookup { name, inputs, table });
        proof {
            assert(self.lookups@.last() == l);
            self.lemma_columns_grow(*old(self));
            assert forall|g: int, i: int|
                0 <= g < self.gates@.len() && 0 <= i < self.gates@[g].constraints@.len()
                    implies self.gate_ok(#[trigger] self.gates@[g].constraints@[i]) by {
                assert(old(self).gate_ok(old(self).gates@[g].constraints@[i]));
            }
            assert forall|k: int| 0 <= k < self.lookups@.len() implies self.lookup_ok(#[trigger] self.lookups@[k]) by {
                if k < old(self).lookups@.len() {
                    assert(old(self).lookups@[k] == self.lookups@[k]);
                    assert(old(self).lookup_ok(old(self).lookups@[k]));
                }
            }
        }
        Ok(())
    }

    /// The expression reading column `c` of the current row moved by `rot`.
    pub fn query_advice(&self, c: Column, rot: Rotation) -> (e: Expression)
        ensures
            e == Expression::Cell(c, rot),
    {
        Expression::Cell(c, rot)
    }

    pub fn query_fixed(&self, c: Column, rot: Rotation) -> (e: Expression)
        ensures
            e == Expression::Cell(c, rot),
    {
        Expression::Cell(c, rot)
    }

    pub fn query_instance(&self, c: Column, rot: Rotation) -> (e: Expression)
        ensures
            e == Expression::Cell(c, rot),
    {
        Expression::Cell(c, rot)
    }

    /// The expression reading a selector on the current row.
    pub fn query_selector(&self, s: Selector) -> (e: Expression)
        ensures
            e == Expression::Cell(Column { kind: ColumnKind::Fixed, index: s.column }, Rotation(0)),
    {
        Expression::Cell(Column { kind: ColumnKind::Fixed, index: s.column }, Rotation(0))
    }
}

/// A fresh column is not among the equality-enabled columns of a
/// well-formed registry.
pub proof fn lemma_fresh_not_enabled(cs: ConstraintSystem, c: Column)
    requires
        cs.wf(),
        !cs.declared(c),
    ensures
        !cs.equality_enabled(c),
{
    if cs.equality@.contains(c) {
        let i = choose|i: int| 0 <= i < cs.equality@.len() && cs.equality@[i] == c;
        assert(cs.declared(cs.equality@[i]));
    }
}

/// Whether `c` stands in `list`.
pub fn column_listed(list: &Vec<Column>, c: Column) -> (r: bool)
    ensures
        r == list@.contains(c),
{
    let mut i: usize = 0;
    while i < list.len()
        invariant
            i <= list@.len(),
            forall|j: int| 0 <= j < i ==> list@[j] != c,
        decreases list@.len() - i,
    {
        if list[i] == c {
            return true;
        }
        i = i + 1;
    }
    false
}

/// A copy of a list of columns.
pub fn copy_columns(list: &Vec<Column>) -> (r: Vec<Column>)
    ensures
        r@ == list@,
{
    let mut r: Vec<Column> = Vec::new();
    let mut i: usize = 0;
    while i < list.len()
        invariant
            i <= list@.len(),
            r@ == list@.subrange(0, i as int),
        decreases list@.len() - i,
    {
        r.push(list[i]);
        i = i + 1;
        assert(r@ == list@.subrange(0, i as int));
    }
    assert(r@ == list@);
    r
}

/// Widening the predicate keeps `all_columns`.
pub proof fn lemma_all_columns_weaken(e: Expression, p: spec_fn(Column) -> bool, q: spec_fn(Column) -> bool)
    requires
        all_columns(e, p),
        forall|c: Column| #[trigger] p(c) ==> q(c),
    ensures
        all_columns(e, q),
    decreases e,
{
    match e {
        Expression::Constant(_) => {},
        Expression::Cell(_, _) => {},
        Expression::Negated(a) => lemma_all_columns_weaken(*a, p, q),
        Expression::Sum(a, b) => {
            lemma_all_columns_weaken(*a, p, q);
            lemma_all_columns_weaken(*b, p, q);
        },
        Expression::Product(a, b) => {
            lemma_all_columns_weaken(*a, p, q);
            lemma_all_columns_weaken(*b, p, q);
        },
        Expression::Scaled(a, _) => lemma_all_columns_weaken(*a, p, q),
    }
}

} // verus!
