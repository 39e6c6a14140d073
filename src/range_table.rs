//! Lookup tables of small integers, loaded once per run.

use crate::constraint_system::ConstraintSystem;
use crate::error::Error;
use crate::field::Fe;
use crate::layout::Layouter;
use crate::table::{Column, ColumnKind};
use crate::value::{Resolved, Value};
use vstd::prelude::*;

verus! {

/// Column `c` can be loaded with `n` values `f(0), ..., f(n - 1)` on rows
/// `0` to `n - 1`: it is a declared lookup-table column, the table has the
/// rows, and no row already holds a different known value.
pub open spec fn loadable(l: Layouter, c: Column, n: nat, f: spec_fn(int) -> nat) -> bool {
    &&& c.kind == ColumnKind::Table
    &&& l.table.has_column(c)
    &&& n <= l.table.rows
    &&& forall|v: int| 0 <= v < n ==> !(#[trigger] l.table.cell(c, v) matches Resolved::Known(x) && x != f(v))
}

/// The value that row `v` receives: `v` itself, or `constant` when given.
pub open spec fn load_value(constant: Option<u64>, v: int) -> nat {
    match constant {
        Some(k) => k as nat,
        None => v as nat,
    }
}

/// Whether a column is loadable depends only on that column's rows.
proof fn lemma_loadable_frame(l0: Layouter, l1: Layouter, c: Column, n: nat, f: spec_fn(int) -> nat)
    requires
        l1.table.rows == l0.table.rows,
        l1.table.has_column(c) == l0.table.has_column(c),
        forall|v: int| 0 <= v < n ==> #[trigger] l1.table.cell(c, v) == l0.table.cell(c, v),
    ensures
        loadable(l1, c, n, f) == loadable(l0, c, n, f),
{
    if loadable(l0, c, n, f) {
        assert forall|v: int| 0 <= v < n implies !(#[trigger] l1.table.cell(c, v) matches Resolved::Known(x) && x != f(v)) by {
            assert(l0.table.cell(c, v) == l1.table.cell(c, v));
        }
    }
    if loadable(l1, c, n, f) {
        assert forall|v: int| 0 <= v < n implies !(#[trigger] l0.table.cell(c, v) matches Resolved::Known(x) && x != f(v)) by {
            assert(l0.table.cell(c, v) == l1.table.cell(c, v));
        }
    }
}

/// Loads `f(v)` into row `v` of column `c` for each `v` below `n`, where
/// `f(v)` is `v` itself, or `constant` when that is given.
fn load_column(layouter: &mut Layouter, c: Column, n: usize, constant: Option<u64>) -> (r: Result<(), Error>)
    requires
        old(layouter).wf(),
    ensures
        final(layouter).wf(),
        old(layouter).same_shape(*final(layouter)),
        old(layouter).keeps_instances(*final(layouter)),
        final(layouter).regions == old(layouter).regions,
        final(layouter).copies == old(layouter).copies,
        final(layouter).publics == old(layouter).publics,
        ({
            let f = |v: int| load_value(constant, v);
            &&& r is Ok <==> loadable(*old(layouter), c, n as nat, f)
            &&& r is Ok ==> forall|v: int| 0 <= v < n ==> #[trigger] final(layouter).table.cell(c, v) == Resolved::Known(f(v))
        }),
        forall|d: Column, row: int|
            !(d == c && 0 <= row < n) ==> #[trigger] final(layouter).table.cell(d, row) == old(layouter).table.cell(d, row),
        final(layouter).equality == old(layouter).equality,
{
    let ghost f = |v: int| load_value(constant, v);
    if c.kind != ColumnKind::Table || !crate::expression::has_column(&layouter.table, c) {
        return Err(Error::WrongColumnKind(c));
    }
    if n > layouter.table.rows {
        return Err(Error::NotEnoughRowsAvailable);
    }
    let mut offset: usize = 0;
    while offset < n
        invariant
            offset <= n <= layouter.table.rows,
            layouter.wf(),
            old(layouter).same_shape(*layouter),
            old(layouter).keeps_instances(*layouter),
            layouter.regions == old(layouter).regions,
            layouter.copies == old(layouter).copies,
            layouter.publics == old(layouter).publics,
            layouter.equality == old(layouter).equality,
            c.kind == ColumnKind::Table,
            layouter.table.has_column(c),
            f == |v: int| load_value(constant, v),
            forall|v: int| 0 <= v < offset ==> #[trigger] layouter.table.cell(c, v) == Resolved::Known(f(v)),
            forall|v: int| 0 <= v < offset ==> !(#[trigger] old(layouter).table.cell(c, v) matches Resolved::Known(x) && x != f(v)),
            forall|d: Column, row: int|
                !(d == c && 0 <= row < offset) ==> #[trigger] layouter.table.cell(d, row) == old(layouter).table.cell(d, row),
        decreases n - offset,
    {
        let x = match constant {
            Some(k) => k,
            None => offset as u64,
        };
        let ghost before = *layouter;
        match layouter.assign_table(c, offset, Value::known(Fe::from_u64(x))) {
            Ok(()) => {},
            Err(e) => {
                assert(old(layouter).table.cell(c, offset as int) == before.table.cell(c, offset as int));
                return Err(e);
            },
        }
        proof {
            assert(f(offset as int) == x as nat);
            assert(layouter.table.cell(c, offset as int) == Resolved::Known(f(offset as int)));
            assert(old(layouter).table.cell(c, offset as int) == before.table.cell(c, offset as int));
            assert(!(old(layouter).table.cell(c, offset as int) matches Resolved::Known(y) && y != f(offset as int)));
            assert forall|v: int| 0 <= v < offset + 1 implies #[trigger] layouter.table.cell(c, v) == Resolved::Known(f(v)) by {
                if v < offset {
                    assert(before.table.cell(c, v) == Resolved::Known(f(v)));
                }
            }
            assert forall|d: Column, row: int|
                !(d == c && 0 <= row < offset + 1) implies #[trigger] layouter.table.cell(d, row) == old(layouter).table.cell(d, row) by {
                assert(before.table.cell(d, row) == old(layouter).table.cell(d, row));
            }
        }
        offset = offset + 1;
    }
    Ok(())
}

/// A one-column table holding `0, 1, ..., RANGE - 1`.
#[derive(Clone, Copy, Debug, PartialEq, Eq)]
pub struct RangeCheckTable<const RANGE: usize> {
    pub value: Column,
}

impl<const RANGE: usize> RangeCheckTable<RANGE> {
    pub fn configure(cs: &mut ConstraintSystem) -> (t: Self)
        requires
            old(cs).wf(),
            old(cs).num_table < usize::MAX,
        ensures
            final(cs).wf(),
            t.value == (Column { kind: ColumnKind::Table, index: old(cs).num_table }),
            *final(cs) == (ConstraintSystem { num_table: (old(cs).num_table + 1) as usize, ..*old(cs) }),
    {
        let value = cs.lookup_table_column();
        RangeCheckTable { value }
    }

    /// Loads `v` into row `v` of the table column for each `v` below `RANGE`.
    pub fn load(&self, layouter: &mut Layouter) -> (r: Result<(), Error>)
        requires
            old(layouter).wf(),
        ensures
            final(layouter).wf(),
            old(layouter).same_shape(*final(layouter)),
            old(layouter).keeps_instances(*final(layouter)),
            r is Ok <==> loadable(*old(layouter), self.value, RANGE as nat, |v: int| v as nat),
            r is Ok ==> forall|v: int| 0 <= v < RANGE ==> #[trigger] final(layouter).table.cell(self.value, v)
                == Resolved::Known(v as nat),
            forall|d: Column, row: int|
                !(d == self.value && 0 <= row < RANGE) ==> #[trigger] final(layouter).table.cell(d, row)
                    == old(layouter).table.cell(d, row),
            final(layouter).regions == old(layouter).regions,
            final(layouter).equality == old(layouter).equality,
            final(layouter).copies == old(layouter).copies,
            final(layouter).publics == old(layouter).publics,
    {
        let r = load_column(layouter, self.value, RANGE, None);
        proof {
            let f = |v: int| v as nat;
            let g = |v: int| load_value(None, v);
            assert(f =~= g);
        }
        r
    }
}

/// A two-column table: row `v` holds `v` in the value column and
/// `NUM_BITS` in the bits column, for each `v` below `RANGE`.
#[derive(Clone, Copy, Debug, PartialEq, Eq)]
pub struct RangeBitsTable<const RANGE: usize, const NUM_BITS: usize> {
    pub value: Column,
    pub num_bits: Column,
}

impl<const RANGE: usize, const NUM_BITS: usize> RangeBitsTable<RANGE, NUM_BITS> {
    pub fn configure(cs: &mut ConstraintSystem) -> (t: Self)
        requires
            old(cs).wf(),
            old(cs).num_table < usize::MAX - 1,
        ensures
            final(cs).wf(),
            t.value == (Column { kind: ColumnKind::Table, index: old(cs).num_table }),
            t.num_bits == (Column { kind: ColumnKind::Table, index: (old(cs).num_table + 1) as usize }),
            *final(cs) == (ConstraintSystem { num_table: (old(cs).num_table + 2) as usize, ..*old(cs) }),
    {
        let value = cs.lookup_table_column();
        let num_bits = cs.lookup_table_column();
        RangeBitsTable { value, num_bits }
    }

    /// Loads `v` and `NUM_BITS` into row `v` of the two columns for each `v`
    /// below `RANGE`.
    pub fn load(&self, layouter: &mut Layouter) -> (r: Result<(), Error>)
        requires
            old(layouter).wf(),
            self.value != self.num_bits,
        ensures
            final(layouter).wf(),
            old(layouter).same_shape(*final(layouter)),
            old(layouter).keeps_instances(*final(layouter)),
            r is Ok <==> loadable(*old(layouter), self.value, RANGE as nat, |v: int| v as nat)
                && loadable(*old(layouter), self.num_bits, RANGE as nat, |v: int| NUM_BITS as nat),
            r is Ok ==> forall|v: int| 0 <= v < RANGE ==> {
                &&& #[trigger] final(layouter).table.cell(self.value, v) == Resolved::Known(v as nat)
                &&& final(layouter).table.cell(self.num_bits, v) == Resolved::Known(NUM_BITS as nat)
            },
            forall|d: Column, row: int|
                !((d == self.value || d == self.num_bits) && 0 <= row < RANGE) ==> #[trigger] final(layouter).table.cell(d, row)
                    == old(layouter).table.cell(d, row),
            final(layouter).regions == old(layouter).regions,
            final(layouter).equality == old(layouter).equality,
            final(layouter).copies == old(layouter).copies,
            final(layouter).publics == old(layouter).publics,
    {
        let ghost l0 = *layouter;
        let ghost fv = |v: int| v as nat;
        let ghost fb = |v: int| NUM_BITS as nat;
        proof {
            let g = |v: int| load_value(None, v);
            let h = |v: int| load_value(Some(NUM_BITS as u64), v);
            assert(fv =~= g);
            assert(fb =~= h);
        }
        match load_column(layouter, self.value, RANGE, None) {
            Ok(()) => {},
            Err(e) => {
                return Err(e);
            },
        }
        let ghost l1 = *layouter;
        let r = load_column(layouter, self.num_bits, RANGE, Some(NUM_BITS as u64));
        proof {
            assert forall|d: Column, row: int|
                !((d == self.value || d == self.num_bits) && 0 <= row < RANGE) implies #[trigger] layouter.table.cell(d, row)
                    == l0.table.cell(d, row) by {
                assert(l1.table.cell(d, row) == l0.table.cell(d, row));
            }
            if l0.table.has_column(self.value) && self.value.kind == ColumnKind::Table && RANGE <= l0.table.rows {
                assert forall|v: int| 0 <= v < RANGE implies #[trigger] l1.table.cell(self.num_bits, v) == l0.table.cell(self.num_bits, v) by {}
                assert(l1.table.columns(self.num_bits.kind).len() == l0.table.columns(self.num_bits.kind).len());
                assert(l1.table.has_column(self.num_bits) == l0.table.has_column(self.num_bits));
                lemma_loadable_frame(l0, l1, self.num_bits, RANGE as nat, fb);
            }
            if r is Ok {
                assert forall|v: int| 0 <= v < RANGE implies #[trigger] layouter.table.cell(self.value, v) == Resolved::Known(v as nat) by {
                    assert(l1.table.cell(self.value, v) == Resolved::Known(v as nat));
                }
            }
        }
        r
    }
}

} // verus!
