//! Columns, cell addresses and the grid of cell contents.

use crate::value::{CellValue, Resolved};
use vstd::prelude::*;

verus! {

/// The most rows a table may have.
pub const MAX_ROWS: usize = 0x1000_0000;

#[derive(Clone, Copy, Debug, PartialEq, Eq, Hash, Structural)]
pub enum ColumnKind {
    Advice,
    Fixed,
    Instance,
    Table,
}

/// A column: its kind and its index among the columns of that kind.
#[derive(Clone, Copy, Debug, PartialEq, Eq, Hash, Structural)]
pub struct Column {
    pub kind: ColumnKind,
    pub index: usize,
}

/// A cell address: a column and an absolute row.
#[derive(Clone, Copy, Debug, PartialEq, Eq, Hash, Structural)]
pub struct CellRef {
    pub column: Column,
    pub row: usize,
}

/// The grid: for each kind, one vector of cells per column, each as long as
/// the table has rows.
#[derive(Debug)]
pub struct Table {
    pub rows: usize,
    pub advice: Vec<Vec<CellValue>>,
    pub fixed: Vec<Vec<CellValue>>,
    pub instance: Vec<Vec<CellValue>>,
    pub lookup: Vec<Vec<CellValue>>,
}

impl Table {
    pub open spec fn columns(self, kind: ColumnKind) -> Seq<Vec<CellValue>> {
        match kind {
            ColumnKind::Advice => self.advice@,
            ColumnKind::Fixed => self.fixed@,
            ColumnKind::Instance => self.instance@,
            ColumnKind::Table => self.lookup@,
        }
    }

    pub open spec fn has_column(self, c: Column) -> bool {
        c.index < self.columns(c.kind).len()
    }

    pub open spec fn wf(self) -> bool {
        &&& self.rows <= MAX_ROWS
        &&& forall|kind: ColumnKind, i: int|
            0 <= i < self.columns(kind).len() ==> #[trigger] self.columns(kind)[i]@.len()
                == self.rows
    }

    /// The contents of a cell; missing outside the grid.
    pub open spec fn cell(self, c: Column, row: int) -> Resolved {
        if self.has_column(c) && 0 <= row < self.rows {
            self.columns(c.kind)[c.index as int]@[row]@
        } else {
            Resolved::Missing
        }
    }

    /// Every cell of the grid is as in `self` but for `(c, row)`, which holds `v`.
    pub open spec fn updated(self, other: Table, c: Column, row: int, v: Resolved) -> bool {
        &&& other.rows == self.rows
        &&& forall|k: ColumnKind| #[trigger] other.columns(k).len() == self.columns(k).len()
        &&& forall|d: Column, r: int| #[trigger]
            other.cell(d, r) == if d == c && r == row {
                v
            } else {
                self.cell(d, r)
            }
    }

    /// A grid of `rows` rows with the given number of columns of each kind,
    /// every cell holding `init`.
    pub fn new(
        rows: usize,
        advice: usize,
        fixed: usize,
        instance: usize,
        lookup: usize,
        init: CellValue,
    ) -> (t: Table)
        requires
            rows <= MAX_ROWS,
        ensures
            t.wf(),
            t.rows == rows,
            t.advice@.len() == advice,
            t.fixed@.len() == fixed,
            t.instance@.len() == instance,
            t.lookup@.len() == lookup,
            forall|c: Column, r: int| t.has_column(c) && 0 <= r < rows ==> #[trigger] t.cell(c, r) == init@,
    {
        let a = Self::grid(rows, advice, init);
        let f = Self::grid(rows, fixed, init);
        let i = Self::grid(rows, instance, init);
        let l = Self::grid(rows, lookup, init);
        let t = Table { rows, advice: a, fixed: f, instance: i, lookup: l };
        assert forall|kind: ColumnKind, i: int|
            0 <= i < t.columns(kind).len() implies #[trigger] t.columns(kind)[i]@.len() == t.rows by {
        }
        t
    }

    pub fn grid(rows: usize, count: usize, init: CellValue) -> (g: Vec<Vec<CellValue>>)
        ensures
            g@.len() == count,
            forall|i: int, r: int|
                0 <= i < count && 0 <= r < rows ==> #[trigger] g@[i]@[r] == init,
            forall|i: int| 0 <= i < count ==> #[trigger] g@[i]@.len() == rows,
    {
        let mut g: Vec<Vec<CellValue>> = Vec::new();
        let mut i: usize = 0;
        while i < count
            invariant
                i <= count,
                g@.len() == i,
                forall|j: int, r: int| 0 <= j < i && 0 <= r < rows ==> #[trigger] g@[j]@[r] == init,
                forall|j: int| 0 <= j < i ==> #[trigger] g@[j]@.len() == rows,
            decreases count - i,
        {
            let col = Self::filled(rows, init);
            g.push(col);
            i = i + 1;
        }
        g
    }

    /// One column of `rows` cells, each holding `init`.
    pub fn filled(rows: usize, init: CellValue) -> (col: Vec<CellValue>)
        ensures
            col@.len() == rows,
            forall|s: int| 0 <= s < rows ==> #[trigger] col@[s] == init,
    {
        let mut col: Vec<CellValue> = Vec::new();
        let mut r: usize = 0;
        while r < rows
            invariant
                r <= rows,
                col@.len() == r,
                forall|s: int| 0 <= s < r ==> #[trigger] col@[s] == init,
            decreases rows - r,
        {
            col.push(init);
            r = r + 1;
        }
        col
    }

    /// The contents of a cell of the grid.
    pub fn get(&self, c: Column, row: usize) -> (v: CellValue)
        requires
            self.wf(),
            self.has_column(c),
            row < self.rows,
        ensures
            v@ == self.cell(c, row as int),
    {
        match c.kind {
            ColumnKind::Advice => self.advice[c.index][row],
            ColumnKind::Fixed => self.fixed[c.index][row],
            ColumnKind::Instance => self.instance[c.index][row],
            ColumnKind::Table => self.lookup[c.index][row],
        }
    }

    /// Writes one cell.
    pub fn set(&mut self, c: Column, row: usize, v: CellValue)
        requires
            old(self).wf(),
            old(self).has_column(c),
            row < old(self).rows,
        ensures
            final(self).wf(),
            old(self).updated(*final(self), c, row as int, v@),
    {
        proof {
            assert(self.columns(c.kind)[c.index as int]@.len() == self.rows);
        }
        match c.kind {
            ColumnKind::Advice => self.advice[c.index].set(row, v),
            ColumnKind::Fixed => self.fixed[c.index].set(row, v),
            ColumnKind::Instance => self.instance[c.index].set(row, v),
            ColumnKind::Table => self.lookup[c.index].set(row, v),
        }
        proof {
            assert forall|kind: ColumnKind, i: int|
                0 <= i < self.columns(kind).len() implies #[trigger] self.columns(kind)[i]@.len()
                    == self.rows by {
                assert(old(self).columns(kind)[i]@.len() == old(self).rows);
            }
            assert forall|d: Column, r: int|
                #[trigger] self.cell(d, r) == if d == c && r == row {
                    v@
                } else {
                    old(self).cell(d, r)
                } by {
                if old(self).has_column(d) && 0 <= r < self.rows {
                    assert(old(self).columns(d.kind)[d.index as int]@.len() == old(self).rows);
                }
            }
        }
    }
}

} // verus!
