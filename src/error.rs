//! Structural errors: raised while a circuit is configured or synthesized,
//! they stop the run.

use crate::table::{CellRef, Column};
use vstd::prelude::*;

verus! {

#[derive(Clone, Copy, Debug, PartialEq, Eq, Structural)]
pub enum Error {
    /// A column was used before it was declared.
    ColumnNotDeclared(Column),
    /// A column of another kind was expected here.
    WrongColumnKind(Column),
    /// Equality can only be enabled on advice and instance columns.
    EqualityNotSupported(Column),
    /// A copy constraint names a column whose equality was not enabled.
    EqualityNotEnabled(Column),
    /// A gate or lookup is malformed: it reads an undeclared column, a gate
    /// reads a lookup-table column, a lookup input reads a selector that was
    /// not declared complex, or a lookup's inputs and table columns differ in
    /// number or kind.
    MalformedArgument,
    /// A write falls outside the rows of the table.
    NotEnoughRowsAvailable,
    /// A region operation was made before any region was opened.
    NoRegion,
    /// A table row was loaded twice with different values.
    ConflictingTableValue(CellRef),
    /// A cell that a value was needed from was never assigned, or lies
    /// outside the table.
    CellNotAssigned(CellRef),
    /// An active gate constraint reads an unassigned cell.
    GateCellNotAssigned { gate: usize, constraint: usize, row: usize },
    /// A lookup input reads an unassigned cell.
    LookupCellNotAssigned { lookup: usize, input: usize, row: usize },
    /// The public inputs do not match the instance columns.
    InvalidInstances,
    /// `k` asks for more rows than a table may have.
    TooManyRows,
}

} // verus!
