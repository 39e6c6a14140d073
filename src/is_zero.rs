//! A chip that witnesses the inverse of a value, so that `1 - value * inv`
//! is 1 when the value is zero and 0 otherwise.

use crate::constraint_system::ConstraintSystem;
use crate::error::Error;
use crate::expression::{all_columns, expr_view, ExprView, Expression, Rotation};
use crate::field::Fe;
use crate::layout::Layouter;
use crate::table::{Column, ColumnKind};
use crate::value::Value;
use vstd::prelude::*;

verus! {

pub struct IsZeroConfig {
    pub value_inv: Column,
    pub expr: Expression,
}

pub struct IsZeroChip {
    pub config: IsZeroConfig,
}

/// `1 - value * value_inv`, both read on the current row.
pub open spec fn is_zero_view(value: Column, value_inv: Column) -> ExprView {
    ExprView::Sum(
        Box::new(ExprView::Constant(1)),
        Box::new(ExprView::Negated(Box::new(ExprView::Product(
            Box::new(ExprView::Cell(value, 0)),
            Box::new(ExprView::Cell(value_inv, 0)),
        )))),
    )
}

impl IsZeroChip {
    pub fn construct(config: IsZeroConfig) -> (r: IsZeroChip)
        ensures
            r.config == config,
    {
        IsZeroChip { config }
    }

    /// Adds the `is_zero` gate `q_enable * value * (1 - value * value_inv)`
    /// and returns the inverse column with the expression `1 - value * value_inv`.
    pub fn configure(cs: &mut ConstraintSystem, q_enable: Expression, value: Column, value_inv: Column) -> (r: Result<IsZeroConfig, Error>)
        requires
            old(cs).wf(),
        ensures
            final(cs).wf(),
            match r {
                Ok(config) => {
                    let gate = Expression::Product(
                        Box::new(Expression::Product(Box::new(q_enable), Box::new(Expression::Cell(value, Rotation(0))))),
                        Box::new(config.expr),
                    );
                    &&& config.value_inv == value_inv
                    &&& expr_view(config.expr) == is_zero_view(value, value_inv)
                    &&& old(cs).gate_ok(gate)
                    &&& final(cs).gates@ == old(cs).gates@.push(final(cs).gates@.last())
                    &&& final(cs).gates@.last().name@ == "is_zero"@
                    &&& final(cs).gates@.last().constraints@ == seq![gate]
                    &&& *final(cs) == (ConstraintSystem { gates: final(cs).gates, ..*old(cs) })
                },
                Err(e) => *final(cs) == *old(cs) && e == Error::MalformedArgument,
            },
            r is Ok <==> old(cs).gate_ok(q_enable) && old(cs).gate_column(value) && old(cs).gate_column(value_inv),
    {
        let one = Fe::one();
        let v = cs.query_advice(value, Rotation::cur());
        let v_inv = cs.query_advice(value_inv, Rotation::cur());
        let expr = Expression::constant(one).sub(v.mul(v_inv));
        let gate = q_enable.mul(cs.query_advice(value, Rotation::cur())).mul(expr.duplicate());
        let ghost g = gate;
        let mut constraints: Vec<Expression> = Vec::new();
        constraints.push(gate);
        let ghost cv = constraints@;
        let ghost before = *cs;
        assert(cv[0] == g);
        proof {
            reveal_with_fuel(all_columns, 6);
            assert(before.gate_ok(g) == (before.gate_ok(q_enable) && before.gate_column(value)
                && before.gate_column(value_inv)));
        }
        match cs.create_gate("is_zero".to_owned(), constraints) {
            Ok(()) => {},
            Err(e) => {
                return Err(e);
            },
        }
        assert(before.gate_ok(cv[0]));
        assert(cs.gates@.last().constraints@ =~= seq![g]);
        proof {
            reveal_with_fuel(expr_view, 4);
        }
        assert(expr_view(expr) == is_zero_view(value, value_inv));
        Ok(IsZeroConfig { value_inv, expr })
    }

    /// Opens a region and writes the inverse of `value` (zero for zero) into
    /// its first row of the inverse column. Returns the chip's expression.
    pub fn assign(&self, layouter: &mut Layouter, value: Value) -> (r: Result<Expression, Error>)
        requires
            old(layouter).wf(),
        ensures
            final(layouter).wf(),
            old(layouter).same_shape(*final(layouter)),
            old(layouter).keeps_instances(*final(layouter)),
            ({
                let l = *old(layouter);
                let c = self.config.value_inv;
                &&& r is Ok <==> c.kind == ColumnKind::Advice && l.table.has_column(c) && l.cursor() < l.table.rows
                &&& r matches Ok(e) ==> {
                    &&& e == self.config.expr
                    &&& final(layouter).regions@.len() == l.regions@.len() + 1
                    &&& match final(layouter).table.cell(c, l.cursor() as int) {
                        crate::value::Resolved::Known(y) => value@ matches Some(x) && (x == 0 ==> y == 0) && (x != 0 ==> (x * y) % crate::field::modulus() == 1),
                        crate::value::Resolved::Unknown => value@ is None,
                        crate::value::Resolved::Missing => false,
                    }
                }
            }),
            forall|c: Column, row: int|
                !(c == self.config.value_inv && row == old(layouter).cursor()) ==> #[trigger] final(layouter).table.cell(c, row)
                    == old(layouter).table.cell(c, row),
            final(layouter).regions@.drop_last() == old(layouter).regions@,
            final(layouter).regions@.len() == old(layouter).regions@.len() + 1,
            final(layouter).regions@.last().start == old(layouter).cursor(),
            final(layouter).equality == old(layouter).equality,
            final(layouter).copies == old(layouter).copies,
            final(layouter).publics == old(layouter).publics,
    {
        layouter.assign_region("is_zero_chip".to_owned());
        assert(layouter.regions@.drop_last() =~= old(layouter).regions@);
        let value_inv = value.invert();
        match layouter.assign_advice(self.config.value_inv, 0, value_inv) {
            Ok(_) => {},
            Err(e) => {
                return Err(e);
            },
        }
        Ok(self.config.expr.duplicate())
    }
}

} // verus!
