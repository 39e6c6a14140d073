use halo2_examples::constraint_system::ConstraintSystem;
use halo2_examples::field::Fe;
use halo2_examples::is_zero::IsZeroChip;
use halo2_examples::layout::Layouter;
use halo2_examples::value::{CellValue, Value};

fn expr_at(v: u64) -> (CellValue, CellValue) {
    let mut cs = ConstraintSystem::new();
    let s = cs.selector();
    let value = cs.advice_column();
    let value_inv = cs.advice_column();
    let q = cs.query_selector(s);
    let config = IsZeroChip::configure(&mut cs, q, value, value_inv).unwrap();
    assert_eq!(cs.gates.len(), 1);
    assert_eq!(cs.gates[0].name, "is_zero");
    let chip = IsZeroChip::construct(config);
    let mut layouter = Layouter::new(8, &cs, &vec![]);
    let expr = chip.assign(&mut layouter, Value::known(Fe::from_u64(v))).unwrap();
    layouter.assign_advice(value, 0, Value::known(Fe::from_u64(v))).unwrap();
    let inv = layouter.table.get(value_inv, 0);
    (expr.evaluate(&layouter.table, 0), inv)
}

#[test]
fn is_zero_expression_is_one_on_zero() {
    let (e, inv) = expr_at(0);
    assert_eq!(e, CellValue::Known(Fe::one()));
    assert_eq!(inv, CellValue::Known(Fe::zero()));
}

#[test]
fn is_zero_expression_is_zero_on_nonzero() {
    for v in [1u64, 5, 1 << 40] {
        let (e, inv) = expr_at(v);
        assert_eq!(e, CellValue::Known(Fe::zero()));
        match inv {
            CellValue::Known(x) => assert_eq!(x.mul(&Fe::from_u64(v)), Fe::one()),
            other => panic!("inverse not written: {:?}", other),
        }
    }
}

#[test]
fn is_zero_unknown_value_stays_unknown() {
    let mut cs = ConstraintSystem::new();
    let value = cs.advice_column();
    let value_inv = cs.advice_column();
    let q = cs.query_advice(value, halo2_examples::expression::Rotation::cur());
    let chip = IsZeroChip::construct(IsZeroChip::configure(&mut cs, q, value, value_inv).unwrap());
    let mut layouter = Layouter::new(4, &cs, &vec![]);
    chip.assign(&mut layouter, Value::unknown()).unwrap();
    assert_eq!(layouter.table.get(value_inv, 0), CellValue::Unknown);
}
