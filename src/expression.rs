//! Symbolic expressions over cells, and their evaluation against a grid.

use crate::field::Fe;
use crate::table::{Column, ColumnKind, Table};
use crate::value::{add_resolved, mul_resolved, neg_resolved, CellValue, Resolved};
use vstd::prelude::*;

verus! {

/// A row offset relative to the row at which a gate is evaluated.
#[derive(Clone, Copy, Debug, PartialEq, Eq, Structural)]
pub struct Rotation(pub i32);

impl Rotation {
    pub fn cur() -> (r: Rotation)
        ensures
            r.0 == 0,
    {
        Rotation(0)
    }

    pub fn next() -> (r: Rotation)
        ensures
            r.0 == 1,
    {
        Rotation(1)
    }

    pub fn prev() -> (r: Rotation)
        ensures
            r.0 == -1,
    {
        Rotation(-1)
    }
}

/// A polynomial over cells, as a tree.
#[derive(Debug, PartialEq, Eq)]
pub enum Expression {
    Constant(Fe),
    Cell(Column, Rotation),
    Negated(Box<Expression>),
    Sum(Box<Expression>, Box<Expression>),
    Product(Box<Expression>, Box<Expression>),
    Scaled(Box<Expression>, Fe),
}

/// An expression with each constant replaced by the integer it stands for.
pub enum ExprView {
    Constant(nat),
    Cell(Column, int),
    Negated(Box<ExprView>),
    Sum(Box<ExprView>, Box<ExprView>),
    Product(Box<ExprView>, Box<ExprView>),
    Scaled(Box<ExprView>, nat),
}

pub open spec fn expr_view(e: Expression) -> ExprView
    decreases e,
{
    match e {
        Expression::Constant(c) => ExprView::Constant(c@),
        Expression::Cell(c, rot) => ExprView::Cell(c, rot.0 as int),
        Expression::Negated(a) => ExprView::Negated(Box::new(expr_view(*a))),
        Expression::Sum(a, b) => ExprView::Sum(Box::new(expr_view(*a)), Box::new(expr_view(*b))),
        Expression::Product(a, b) => ExprView::Product(Box::new(expr_view(*a)), Box::new(expr_view(*b))),
        Expression::Scaled(a, c) => ExprView::Scaled(Box::new(expr_view(*a)), c@),
    }
}

/// The value of `e` at absolute row `row`: each cell is read at `row` plus
/// its rotation.
pub open spec fn eval(e: Expression, t: Table, row: int) -> Resolved
    decreases e,
{
    match e {
        Expression::Constant(c) => Resolved::Known(c@),
        Expression::Cell(c, rot) => t.cell(c, row + rot.0),
        Expression::Negated(a) => neg_resolved(eval(*a, t, row)),
        Expression::Sum(a, b) => add_resolved(eval(*a, t, row), eval(*b, t, row)),
        Expression::Product(a, b) => mul_resolved(eval(*a, t, row), eval(*b, t, row)),
        Expression::Scaled(a, c) => mul_resolved(eval(*a, t, row), Resolved::Known(c@)),
    }
}

/// Expressions with the same view take the same value everywhere.
pub proof fn lemma_eval_by_view(a: Expression, b: Expression, t: Table, row: int)
    requires
        expr_view(a) == expr_view(b),
    ensures
        eval(a, t, row) == eval(b, t, row),
    decreases a,
{
    match a {
        Expression::Constant(_) => {
            assert(b is Constant);
        },
        Expression::Cell(_, _) => {
            assert(b is Cell);
        },
        Expression::Negated(x) => match b {
            Expression::Negated(y) => lemma_eval_by_view(*x, *y, t, row),
            _ => {},
        },
        Expression::Sum(x1, x2) => match b {
            Expression::Sum(y1, y2) => {
                lemma_eval_by_view(*x1, *y1, t, row);
                lemma_eval_by_view(*x2, *y2, t, row);
            },
            _ => {},
        },
        Expression::Product(x1, x2) => match b {
            Expression::Product(y1, y2) => {
                lemma_eval_by_view(*x1, *y1, t, row);
                lemma_eval_by_view(*x2, *y2, t, row);
            },
            _ => {},
        },
        Expression::Scaled(x, _) => match b {
            Expression::Scaled(y, _) => lemma_eval_by_view(*x, *y, t, row),
            _ => {},
        },
    }
}

/// Every column that `e` reads satisfies `ok`.
pub open spec fn all_columns(e: Expression, ok: spec_fn(Column) -> bool) -> bool
    decreases e,
{
    match e {
        Expression::Constant(_) => true,
        Expression::Cell(c, _) => ok(c),
        Expression::Negated(a) => all_columns(*a, ok),
        Expression::Sum(a, b) => all_columns(*a, ok) && all_columns(*b, ok),
        Expression::Product(a, b) => all_columns(*a, ok) && all_columns(*b, ok),
        Expression::Scaled(a, _) => all_columns(*a, ok),
    }
}

/// The cells that `e` reads, left to right, repeats included.
pub open spec fn queries(e: Expression) -> Seq<(Column, Rotation)>
    decreases e,
{
    match e {
        Expression::Constant(_) => Seq::empty(),
        Expression::Cell(c, r) => seq![(c, r)],
        Expression::Negated(a) => queries(*a),
        Expression::Sum(a, b) => queries(*a) + queries(*b),
        Expression::Product(a, b) => queries(*a) + queries(*b),
        Expression::Scaled(a, _) => queries(*a),
    }
}

impl Expression {
    pub fn constant(c: Fe) -> (r: Expression)
        ensures
            r == Expression::Constant(c),
    {
        Expression::Constant(c)
    }

    pub fn cell(column: Column, rotation: Rotation) -> (r: Expression)
        ensures
            r == Expression::Cell(column, rotation),
    {
        Expression::Cell(column, rotation)
    }

    pub fn neg(self) -> (r: Expression)
        ensures
            r == Expression::Negated(Box::new(self)),
    {
        Expression::Negated(Box::new(self))
    }

    pub fn add(self, o: Expression) -> (r: Expression)
        ensures
            r == Expression::Sum(Box::new(self), Box::new(o)),
    {
        Expression::Sum(Box::new(self), Box::new(o))
    }

    /// `self - o`, written as `self + (-o)`.
    pub fn sub(self, o: Expression) -> (r: Expression)
        ensures
            r == Expression::Sum(Box::new(self), Box::new(Expression::Negated(Box::new(o)))),
    {
        Expression::Sum(Box::new(self), Box::new(Expression::Negated(Box::new(o))))
    }

    pub fn mul(self, o: Expression) -> (r: Expression)
        ensures
            r == Expression::Product(Box::new(self), Box::new(o)),
    {
        Expression::Product(Box::new(self), Box::new(o))
    }

    pub fn scale(self, c: Fe) -> (r: Expression)
        ensures
            r == Expression::Scaled(Box::new(self), c),
    {
        Expression::Scaled(Box::new(self), c)
    }

    /// A copy of the tree.
    pub fn duplicate(&self) -> (r: Expression)
        ensures
            r == *self,
        decreases self,
    {
        match self {
            Expression::Constant(c) => Expression::Constant(*c),
            Expression::Cell(c, r) => Expression::Cell(*c, *r),
            Expression::Negated(a) => Expression::Negated(Box::new(a.duplicate())),
            Expression::Sum(a, b) => Expression::Sum(Box::new(a.duplicate()), Box::new(b.duplicate())),
            Expression::Product(a, b) => Expression::Product(
                Box::new(a.duplicate()),
                Box::new(b.duplicate()),
            ),
            Expression::Scaled(a, c) => Expression::Scaled(Box::new(a.duplicate()), *c),
        }
    }

    /// The value of the expression at absolute row `row` of `t`.
    pub fn evaluate(&self, t: &Table, row: usize) -> (r: CellValue)
        requires
            t.wf(),
            row < t.rows,
        ensures
            r@ == eval(*self, *t, row as int),
        decreases self,
    {
        match self {
            Expression::Constant(c) => CellValue::Known(*c),
            Expression::Cell(c, rot) => read_cell(t, *c, row, *rot),
            Expression::Negated(a) => a.evaluate(t, row).neg(),
            Expression::Sum(a, b) => {
                let x = a.evaluate(t, row);
                let y = b.evaluate(t, row);
                x.add(&y)
            },
            Expression::Product(a, b) => {
                let x = a.evaluate(t, row);
                let y = b.evaluate(t, row);
                x.mul(&y)
            },
            Expression::Scaled(a, c) => {
                let x = a.evaluate(t, row);
                x.mul(&CellValue::Known(*c))
            },
        }
    }
}

/// The cell of column `c` at `row` moved by `rot`; unassigned when that lands
/// outside the grid.
pub fn read_cell(t: &Table, c: Column, row: usize, rot: Rotation) -> (r: CellValue)
    requires
        t.wf(),
        row < t.rows,
    ensures
        r@ == t.cell(c, row + rot.0),
{
    let target: i64 = row as i64 + rot.0 as i64;
    if target < 0 || target >= t.rows as i64 || !has_column(t, c) {
        CellValue::Unassigned
    } else {
        t.get(c, target as usize)
    }
}

/// Whether the grid has column `c`.
pub fn has_column(t: &Table, c: Column) -> (r: bool)
    ensures
        r == t.has_column(c),
{
    match c.kind {
        ColumnKind::Advice => c.index < t.advice.len(),
        ColumnKind::Fixed => c.index < t.fixed.len(),
        ColumnKind::Instance => c.index < t.instance.len(),
        ColumnKind::Table => c.index < t.lookup.len(),
    }
}

} // verus!
