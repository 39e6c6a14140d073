//! The layouter: opens regions one after another, writes cell values and
//! records copy constraints and public-input bindings.

use crate::constraint_system::{column_listed, copy_columns, ConstraintSystem, FixedUse, Selector};
use crate::error::Error;
use crate::field::Fe;
use crate::expression::has_column;
use crate::table::{CellRef, Column, ColumnKind, Table, MAX_ROWS};
use crate::value::{CellValue, Resolved, Value};
use vstd::prelude::*;

verus! {

/// A region: a name and the rows it took, `start` up to `start + len`.
#[derive(Debug, PartialEq, Eq)]
pub struct RegionInfo {
    pub name: String,
    pub start: usize,
    pub len: usize,
}

/// Two cells that must hold the same value.
#[derive(Clone, Copy, Debug, PartialEq, Eq, Structural)]
pub struct CopyConstraint {
    pub left: CellRef,
    pub right: CellRef,
}

/// A cell whose value must equal a public input.
#[derive(Clone, Copy, Debug, PartialEq, Eq, Structural)]
pub struct PublicBinding {
    pub cell: CellRef,
    pub instance: CellRef,
}

/// What a write hands back: where the value went, and the value.
#[derive(Clone, Copy, Debug, PartialEq, Eq)]
pub struct AssignedCell {
    pub cell: CellRef,
    pub value: Value,
}

impl AssignedCell {
    pub fn cell(&self) -> (r: CellRef)
        ensures
            r == self.cell,
    {
        self.cell
    }

    pub fn value(&self) -> (r: Value)
        ensures
            r == self.value,
    {
        self.value
    }
}

/// Both cells of `cc` hold the same known value in `t`.
pub open spec fn copy_clean(t: Table, cc: CopyConstraint) -> bool {
    &&& t.cell(cc.left.column, cc.left.row as int) is Known
    &&& t.cell(cc.left.column, cc.left.row as int) == t.cell(cc.right.column, cc.right.row as int)
}

/// Both cells of `cc` are public inputs or lie above row `bound`.
pub open spec fn copy_settled(cc: CopyConstraint, bound: int) -> bool {
    &&& (cc.left.column.kind == ColumnKind::Instance || cc.left.row < bound)
    &&& (cc.right.column.kind == ColumnKind::Instance || cc.right.row < bound)
}

/// What writing `v` leaves in a cell.
pub open spec fn written_value(v: Value) -> Resolved {
    match v {
        Value::Known(f) => Resolved::Known(f@),
        Value::Unknown => Resolved::Unknown,
    }
}

pub struct Layouter {
    pub table: Table,
    pub equality: Vec<Column>,
    pub regions: Vec<RegionInfo>,
    pub copies: Vec<CopyConstraint>,
    pub publics: Vec<PublicBinding>,
}

impl Layouter {
    pub open spec fn wf(self) -> bool {
        &&& self.table.wf()
        &&& forall|i: int|
            0 <= i < self.regions@.len() ==> #[trigger] self.regions@[i].start + self.regions@[i].len
                <= self.table.rows
        &&& forall|i: int|
            0 < i < self.regions@.len() ==> #[trigger] self.regions@[i].start == self.regions@[i
                - 1].start + self.regions@[i - 1].len
        &&& self.regions@.len() > 0 ==> self.regions@[0].start == 0
    }

    /// `new` has the rows and the columns of `self`.
    pub open spec fn same_shape(self, new: Layouter) -> bool {
        &&& new.table.rows == self.table.rows
        &&& forall|k: ColumnKind| #[trigger] new.table.columns(k).len() == self.table.columns(k).len()
    }

    /// Every instance cell of `new` holds what it holds in `self`.
    pub open spec fn keeps_instances(self, new: Layouter) -> bool {
        forall|c: Column, r: int| c.kind == ColumnKind::Instance ==> #[trigger] new.table.cell(c, r) == self.table.cell(c, r)
    }

    /// The first row that no region has taken.
    pub open spec fn cursor(self) -> nat {
        if self.regions@.len() == 0 {
            0
        } else {
            (self.regions@.last().start + self.regions@.last().len) as nat
        }
    }

    pub open spec fn equality_enabled(self, c: Column) -> bool {
        self.equality@.contains(c)
    }

    /// The absolute row of row `offset` of the open region, or why there is none.
    pub open spec fn target(self, offset: usize) -> Result<usize, Error> {
        if self.regions@.len() == 0 {
            Err(Error::NoRegion)
        } else if self.regions@.last().start + offset < self.table.rows {
            Ok((self.regions@.last().start + offset) as usize)
        } else {
            Err(Error::NotEnoughRowsAvailable)
        }
    }

    /// Why column `c` cannot be written as a column of kind `kind`, if it cannot.
    pub open spec fn column_fault(self, c: Column, kind: ColumnKind) -> Option<Error> {
        if c.kind != kind {
            Some(Error::WrongColumnKind(c))
        } else if !self.table.has_column(c) {
            Some(Error::ColumnNotDeclared(c))
        } else {
            None
        }
    }

    /// Where a write of row `offset` of the open region to column `c` of kind
    /// `kind` goes, or why it fails.
    pub open spec fn placement(self, c: Column, kind: ColumnKind, offset: usize) -> Result<usize, Error> {
        match self.column_fault(c, kind) {
            Some(e) => Err(e),
            None => self.target(offset),
        }
    }

    /// `new` is `self` with `v` written at `(c, row)`, row `offset` of the
    /// open region.
    pub open spec fn region_write(self, new: Layouter, c: Column, row: usize, v: Resolved, offset: usize) -> bool {
        &&& self.region_write_cells(new, c, row, v, offset)
        &&& new.copies == self.copies
    }

    /// As `region_write`, with copy constraints left out of the comparison.
    pub open spec fn region_write_cells(self, new: Layouter, c: Column, row: usize, v: Resolved, offset: usize) -> bool {
        &&& self.table.updated(new.table, c, row as int, v)
        &&& new.equality == self.equality
        &&& new.publics == self.publics
        &&& new.regions@.len() == self.regions@.len()
        &&& new.regions@.drop_last() == self.regions@.drop_last()
        &&& new.regions@.last().name == self.regions@.last().name
        &&& new.regions@.last().start == self.regions@.last().start
        &&& new.regions@.last().len == if self.regions@.last().len > offset {
            self.regions@.last().len
        } else {
            (offset + 1) as usize
        }
    }

    /// A layouter for a table of `rows` rows shaped after `cs`. Selector
    /// columns hold 0, instance column `i` holds `instance[i]` followed by
    /// zeros, and every other cell is unassigned.
    pub fn new(rows: usize, cs: &ConstraintSystem, instance: &Vec<Vec<Fe>>) -> (l: Layouter)
        requires
            rows <= MAX_ROWS,
            instance@.len() == cs.num_instance,
            forall|i: int| 0 <= i < instance@.len() ==> #[trigger] instance@[i]@.len() <= rows,
        ensures
            l.wf(),
            l.table.rows == rows,
            l.table.advice@.len() == cs.num_advice,
            l.table.fixed@.len() == cs.fixed@.len(),
            l.table.instance@.len() == cs.num_instance,
            l.table.lookup@.len() == cs.num_table,
            l.equality@ == cs.equality@,
            l.regions@.len() == 0,
            l.copies@.len() == 0,
            l.publics@.len() == 0,
            forall|c: Column, r: int|
                0 <= r < rows && l.table.has_column(c) ==> #[trigger] l.table.cell(c, r) == match c.kind {
                    ColumnKind::Fixed => if cs.fixed@[c.index as int] == FixedUse::Plain {
                        Resolved::Missing
                    } else {
                        Resolved::Known(0)
                    },
                    ColumnKind::Instance => if r < instance@[c.index as int]@.len() {
                        Resolved::Known(instance@[c.index as int]@[r]@)
                    } else {
                        Resolved::Known(0)
                    },
                    _ => Resolved::Missing,
                },
    {
        let zero = Fe::zero();
        let advice = Table::grid(rows, cs.num_advice, CellValue::Unassigned);
        let lookup = Table::grid(rows, cs.num_table, CellValue::Unassigned);
        let mut fixed: Vec<Vec<CellValue>> = Vec::new();
        let mut j: usize = 0;
        while j < cs.fixed.len()
            invariant
                j <= cs.fixed@.len(),
                fixed@.len() == j,
                forall|i: int| 0 <= i < j ==> #[trigger] fixed@[i]@.len() == rows,
                forall|i: int, r: int| 0 <= i < j && 0 <= r < rows ==> #[trigger] fixed@[i]@[r] == if cs.fixed@[i] == FixedUse::Plain {
                    CellValue::Unassigned
                } else {
                    CellValue::Known(zero)
                },
            decreases cs.fixed@.len() - j,
        {
            let init = if cs.fixed[j] == FixedUse::Plain {
                CellValue::Unassigned
            } else {
                CellValue::Known(zero)
            };
            fixed.push(Table::filled(rows, init));
            j = j + 1;
        }
        let mut inst: Vec<Vec<CellValue>> = Vec::new();
        let mut i: usize = 0;
        while i < instance.len()
            invariant
                i <= instance@.len(),
                inst@.len() == i,
                forall|k: int| 0 <= k < instance@.len() ==> #[trigger] instance@[k]@.len() <= rows,
                forall|k: int| 0 <= k < i ==> #[trigger] inst@[k]@.len() == rows,
                forall|k: int, r: int| 0 <= k < i && 0 <= r < rows ==> #[trigger] inst@[k]@[r] == if r < instance@[k]@.len() {
                    CellValue::Known(instance@[k]@[r])
                } else {
                    CellValue::Known(zero)
                },
            decreases instance@.len() - i,
        {
            let src = &instance[i];
            let mut col: Vec<CellValue> = Vec::new();
            let mut r: usize = 0;
            while r < rows
                invariant
                    r <= rows,
                    src@.len() <= rows,
                    col@.len() == r,
                    forall|s: int| 0 <= s < r ==> #[trigger] col@[s] == if s < src@.len() {
                        CellValue::Known(src@[s])
                    } else {
                        CellValue::Known(zero)
                    },
                decreases rows - r,
            {
                if r < src.len() {
                    col.push(CellValue::Known(src[r]));
                } else {
                    col.push(CellValue::Known(zero));
                }
                r = r + 1;
            }
            inst.push(col);
            i = i + 1;
        }
        let table = Table { rows, advice, fixed, instance: inst, lookup };
        assert forall|kind: ColumnKind, i: int|
            0 <= i < table.columns(kind).len() implies #[trigger] table.columns(kind)[i]@.len()
                == table.rows by {}
        Layouter {
            table,
            equality: copy_columns(&cs.equality),
            regions: Vec::new(),
            copies: Vec::new(),
            publics: Vec::new(),
        }
    }

    /// Opens a region at the first free row; the rows written through it
    /// are taken from then on, and the region before it is closed.
    pub fn assign_region(&mut self, name: String)
        requires
            old(self).wf(),
        ensures
            final(self).wf(),
            final(self).regions@ == old(self).regions@.push(
                RegionInfo { name, start: old(self).cursor() as usize, len: 0 },
            ),
            final(self).table == old(self).table,
            final(self).equality == old(self).equality,
            final(self).copies == old(self).copies,
            final(self).publics == old(self).publics,
    {
        let start = if self.regions.len() == 0 {
            0
        } else {
            let last = self.regions.len() - 1;
            assert(self.regions@[last as int].start + self.regions@[last as int].len <= self.table.rows);
            self.regions[last].start + self.regions[last].len
        };
        self.regions.push(RegionInfo { name, start, len: 0 });
        proof {
            assert forall|i: int| 0 <= i < self.regions@.len() implies #[trigger] self.regions@[i].start
                + self.regions@[i].len <= self.table.rows by {
                if i < old(self).regions@.len() {
                    assert(self.regions@[i] == old(self).regions@[i]);
                }
            }
            assert forall|i: int| 0 < i < self.regions@.len() implies #[trigger] self.regions@[i].start
                == self.regions@[i - 1].start + self.regions@[i - 1].len by {
                if i < old(self).regions@.len() {
                    assert(self.regions@[i] == old(self).regions@[i]);
                    assert(self.regions@[i - 1] == old(self).regions@[i - 1]);
                }
            }
        }
    }

    fn check_column(&self, c: Column, kind: ColumnKind) -> (r: Option<Error>)
        ensures
            r == self.column_fault(c, kind),
    {
        if c.kind != kind {
            Some(Error::WrongColumnKind(c))
        } else if !has_column(&self.table, c) {
            Some(Error::ColumnNotDeclared(c))
        } else {
            None
        }
    }

    fn place(&self, c: Column, kind: ColumnKind, offset: usize) -> (r: Result<usize, Error>)
        requires
            self.wf(),
        ensures
            r == self.placement(c, kind, offset),
    {
        match self.check_column(c, kind) {
            Some(e) => Err(e),
            None => {
                if self.regions.len() == 0 {
                    Err(Error::NoRegion)
                } else {
                    let start = self.regions[self.regions.len() - 1].start;
                    if offset < self.table.rows - start {
                        Ok(start + offset)
                    } else {
                        Err(Error::NotEnoughRowsAvailable)
                    }
                }
            },
        }
    }

    /// Writes `v` at row `offset` of the open region, which then reaches at
    /// least that row.
    fn write_in_region(&mut self, c: Column, kind: ColumnKind, offset: usize, v: CellValue) -> (r: Result<usize, Error>)
        requires
            old(self).wf(),
        ensures
            final(self).wf(),
            r == old(self).placement(c, kind, offset),
            match r {
                Ok(row) => old(self).region_write(*final(self), c, row, v@, offset),
                Err(_) => *final(self) == *old(self),
            },
    {
        let row = match self.place(c, kind, offset) {
            Ok(row) => row,
            Err(e) => {
                return Err(e);
            },
        };
        self.table.set(c, row, v);
        let last = self.regions.len() - 1;
        if self.regions[last].len <= offset {
            self.regions[last].len = offset + 1;
        }
        proof {
            let n = self.regions@.len();
            assert(self.regions@.drop_last() =~= old(self).regions@.drop_last());
            assert forall|i: int| 0 <= i < n implies #[trigger] self.regions@[i].start
                + self.regions@[i].len <= self.table.rows by {
                if i < n - 1 {
                    assert(self.regions@[i] == old(self).regions@.drop_last()[i]);
                }
            }
            assert forall|i: int| 0 < i < n implies #[trigger] self.regions@[i].start
                == self.regions@[i - 1].start + self.regions@[i - 1].len by {
                assert(self.regions@[i - 1] == old(self).regions@.drop_last()[i - 1]);
                if i < n - 1 {
                    assert(self.regions@[i] == old(self).regions@.drop_last()[i]);
                }
            }
            if n > 1 {
                assert(self.regions@[0] == old(self).regions@.drop_last()[0]);
            }
        }
        Ok(row)
    }

    /// Writes `v` into advice column `c` at row `offset` of the open region.
    pub fn assign_advice(&mut self, c: Column, offset: usize, v: Value) -> (r: Result<AssignedCell, Error>)
        requires
            old(self).wf(),
        ensures
            final(self).wf(),
            match old(self).placement(c, ColumnKind::Advice, offset) {
                Ok(row) => r == Ok::<AssignedCell, Error>(AssignedCell { cell: CellRef { column: c, row }, value: v })
                    && old(self).region_write(*final(self), c, row, written_value(v), offset),
                Err(e) => r == Err::<AssignedCell, Error>(e) && *final(self) == *old(self),
            },
    {
        let cv = CellValue::from_value(v);
        match self.write_in_region(c, ColumnKind::Advice, offset, cv) {
            Ok(row) => Ok(AssignedCell { cell: CellRef { column: c, row }, value: v }),
            Err(e) => Err(e),
        }
    }

    /// Turns the selector on at row `offset` of the open region.
    pub fn enable_selector(&mut self, s: Selector, offset: usize) -> (r: Result<(), Error>)
        requires
            old(self).wf(),
        ensures
            final(self).wf(),
            match old(self).placement(Column { kind: ColumnKind::Fixed, index: s.column }, ColumnKind::Fixed, offset) {
                Ok(row) => r is Ok && old(self).region_write(
                    *final(self),
                    Column { kind: ColumnKind::Fixed, index: s.column },
                    row,
                    Resolved::Known(1),
                    offset,
                ),
                Err(e) => r == Err::<(), Error>(e) && *final(self) == *old(self),
            },
    {
        let one = Fe::one();
        match self.write_in_region(Column { kind: ColumnKind::Fixed, index: s.column }, ColumnKind::Fixed, offset, CellValue::Known(one)) {
            Ok(_) => Ok(()),
            Err(e) => Err(e),
        }
    }

    /// Why a copy constraint may not name `cell`, if it may not.
    pub open spec fn copy_fault(self, cell: CellRef) -> Option<Error> {
        if !self.table.has_column(cell.column) {
            Some(Error::ColumnNotDeclared(cell.column))
        } else if cell.row >= self.table.rows {
            Some(Error::CellNotAssigned(cell))
        } else if !self.equality_enabled(cell.column) {
            Some(Error::EqualityNotEnabled(cell.column))
        } else {
            None
        }
    }

    fn check_copy(&self, cell: CellRef) -> (r: Option<Error>)
        ensures
            r == self.copy_fault(cell),
    {
        if !has_column(&self.table, cell.column) {
            Some(Error::ColumnNotDeclared(cell.column))
        } else if cell.row >= self.table.rows {
            Some(Error::CellNotAssigned(cell))
        } else if !column_listed(&self.equality, cell.column) {
            Some(Error::EqualityNotEnabled(cell.column))
        } else {
            None
        }
    }

    fn push_copy(&mut self, cc: CopyConstraint)
        requires
            old(self).wf(),
        ensures
            final(self).wf(),
            *final(self) == (Layouter { copies: final(self).copies, ..*old(self) }),
            final(self).copies@ == old(self).copies@.push(cc),
    {
        self.copies.push(cc);
    }

    /// Records that cells `a` and `b` must hold the same value.
    pub fn constrain_equal(&mut self, a: CellRef, b: CellRef) -> (r: Result<(), Error>)
        requires
            old(self).wf(),
        ensures
            final(self).wf(),
            match (old(self).copy_fault(a), old(self).copy_fault(b)) {
                (Some(e), _) | (None, Some(e)) => r == Err::<(), Error>(e) && *final(self) == *old(self),
                (None, None) => r is Ok && *final(self) == (Layouter { copies: final(self).copies, ..*old(self) })
                    && final(self).copies@ == old(self).copies@.push(CopyConstraint { left: a, right: b }),
            },
    {
        if let Some(e) = self.check_copy(a) {
            return Err(e);
        }
        if let Some(e) = self.check_copy(b) {
            return Err(e);
        }
        self.push_copy(CopyConstraint { left: a, right: b });
        Ok(())
    }

    /// Writes the value of `src` into advice column `c` at row `offset` of
    /// the open region, and records that the two cells must be equal.
    pub fn copy_advice(&mut self, src: &AssignedCell, c: Column, offset: usize) -> (r: Result<AssignedCell, Error>)
        requires
            old(self).wf(),
        ensures
            final(self).wf(),
            match old(self).copy_fault(src.cell) {
                Some(e) => r == Err::<AssignedCell, Error>(e) && *final(self) == *old(self),
                None => match old(self).placement(c, ColumnKind::Advice, offset) {
                    Err(e) => r == Err::<AssignedCell, Error>(e) && *final(self) == *old(self),
                    Ok(row) => if !old(self).equality_enabled(c) {
                        r == Err::<AssignedCell, Error>(Error::EqualityNotEnabled(c)) && *final(self) == *old(self)
                    } else {
                        &&& r == Ok::<AssignedCell, Error>(AssignedCell { cell: CellRef { column: c, row }, value: src.value })
                        &&& old(self).region_write_cells(*final(self), c, row, written_value(src.value), offset)
                        &&& final(self).copies@ == old(self).copies@.push(
                            CopyConstraint { left: src.cell, right: CellRef { column: c, row } },
                        )
                    },
                },
            },
    {
        if let Some(e) = self.check_copy(src.cell) {
            return Err(e);
        }
        match self.place(c, ColumnKind::Advice, offset) {
            Err(e) => {
                return Err(e);
            },
            Ok(_) => {},
        }
        if !column_listed(&self.equality, c) {
            return Err(Error::EqualityNotEnabled(c));
        }
        let cell = match self.assign_advice(c, offset, src.value) {
            Ok(cell) => cell,
            Err(e) => {
                return Err(e);
            },
        };
        self.push_copy(CopyConstraint { left: src.cell, right: cell.cell });
        Ok(cell)
    }

    /// Copies the public input at `(inst, inst_row)` into advice column `c`
    /// at row `offset` of the open region, and records that the two cells
    /// must be equal.
    pub fn assign_advice_from_instance(&mut self, inst: Column, inst_row: usize, c: Column, offset: usize) -> (r: Result<AssignedCell, Error>)
        requires
            old(self).wf(),
        ensures
            final(self).wf(),
            ({
                let src = CellRef { column: inst, row: inst_row };
                if inst.kind != ColumnKind::Instance {
                    r == Err::<AssignedCell, Error>(Error::WrongColumnKind(inst)) && *final(self) == *old(self)
                } else {
                    match old(self).copy_fault(src) {
                        Some(e) => r == Err::<AssignedCell, Error>(e) && *final(self) == *old(self),
                        None => match old(self).table.cell(inst, inst_row as int) {
                            Resolved::Missing => r == Err::<AssignedCell, Error>(Error::CellNotAssigned(src))
                                && *final(self) == *old(self),
                            v => match old(self).placement(c, ColumnKind::Advice, offset) {
                                Err(e) => r == Err::<AssignedCell, Error>(e) && *final(self) == *old(self),
                                Ok(row) => if !old(self).equality_enabled(c) {
                                    r == Err::<AssignedCell, Error>(Error::EqualityNotEnabled(c))
                                        && *final(self) == *old(self)
                                } else {
                                    &&& r matches Ok(a) && a.cell == (CellRef { column: c, row }) && written_value(a.value) == v
                                    &&& old(self).region_write_cells(*final(self), c, row, v, offset)
                                    &&& final(self).copies@ == old(self).copies@.push(
                                        CopyConstraint { left: src, right: CellRef { column: c, row } },
                                    )
                                },
                            },
                        },
                    }
                }
            }),
    {
        let src = CellRef { column: inst, row: inst_row };
        if inst.kind != ColumnKind::Instance {
            return Err(Error::WrongColumnKind(inst));
        }
        if let Some(e) = self.check_copy(src) {
            return Err(e);
        }
        let value = match self.table.get(inst, inst_row) {
            CellValue::Known(f) => Value::Known(f),
            CellValue::Unknown => Value::Unknown,
            CellValue::Unassigned => {
                return Err(Error::CellNotAssigned(src));
            },
        };
        let cell = AssignedCell { cell: src, value };
        self.copy_advice(&cell, c, offset)
    }

    /// Records that `cell` must hold the public input at `(inst, inst_row)`.
    pub fn constrain_instance(&mut self, cell: CellRef, inst: Column, inst_row: usize) -> (r: Result<(), Error>)
        requires
            old(self).wf(),
        ensures
            final(self).wf(),
            ({
                let target = CellRef { column: inst, row: inst_row };
                if inst.kind != ColumnKind::Instance {
                    r == Err::<(), Error>(Error::WrongColumnKind(inst)) && *final(self) == *old(self)
                } else {
                    match (old(self).copy_fault(cell), old(self).copy_fault(target)) {
                        (Some(e), _) | (None, Some(e)) => r == Err::<(), Error>(e) && *final(self) == *old(self),
                        (None, None) => r is Ok && *final(self) == (Layouter { publics: final(self).publics, ..*old(self) })
                            && final(self).publics@ == old(self).publics@.push(PublicBinding { cell, instance: target }),
                    }
                }
            }),
    {
        let target = CellRef { column: inst, row: inst_row };
        if inst.kind != ColumnKind::Instance {
            return Err(Error::WrongColumnKind(inst));
        }
        if let Some(e) = self.check_copy(cell) {
            return Err(e);
        }
        if let Some(e) = self.check_copy(target) {
            return Err(e);
        }
        self.publics.push(PublicBinding { cell, instance: target });
        Ok(())
    }

    /// Loads `v` into lookup-table column `c` at absolute row `row`. Loading
    /// a row again with the same value changes nothing; with another known
    /// value it fails.
    pub fn assign_table(&mut self, c: Column, row: usize, v: Value) -> (r: Result<(), Error>)
        requires
            old(self).wf(),
        ensures
            final(self).wf(),
            match old(self).column_fault(c, ColumnKind::Table) {
                Some(e) => r == Err::<(), Error>(e) && *final(self) == *old(self),
                None => if row >= old(self).table.rows {
                    r == Err::<(), Error>(Error::NotEnoughRowsAvailable) && *final(self) == *old(self)
                } else {
                    match (old(self).table.cell(c, row as int), v@) {
                        (Resolved::Known(x), Some(y)) if x != y => r == Err::<(), Error>(
                            Error::ConflictingTableValue(CellRef { column: c, row }),
                        ) && *final(self) == *old(self),
                        _ => r is Ok && old(self).table.updated(final(self).table, c, row as int, written_value(v))
                            && *final(self) == (Layouter { table: final(self).table, ..*old(self) }),
                    }
                },
            },
    {
        if let Some(e) = self.check_column(c, ColumnKind::Table) {
            return Err(e);
        }
        if row >= self.table.rows {
            return Err(Error::NotEnoughRowsAvailable);
        }
        match (self.table.get(c, row), v) {
            (CellValue::Known(x), Value::Known(y)) => {
                if !x.equals(&y) {
                    return Err(Error::ConflictingTableValue(CellRef { column: c, row }));
                }
            },
            _ => {},
        }
        self.table.set(c, row, CellValue::from_value(v));
        Ok(())
    }
}

} // verus!
