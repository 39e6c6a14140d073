use halo2_examples::error::Error;
use halo2_examples::field::Fe;
use halo2_examples::prover::{Location, MockProver, Violation};
use halo2_examples::range_check::MyCircuit;
use halo2_examples::table::{Column, ColumnKind};
use halo2_examples::expression::Rotation;
use halo2_examples::value::{CellValue, Value};
use halo2_examples::constraint_system::ConstraintSystem;
use halo2_examples::layout::{AssignedCell, Layouter};
use halo2_examples::range_check::RangeConstrained;
use halo2_examples::range_table::{RangeBitsTable, RangeCheckTable};
use halo2_examples::table::CellRef;

#[test]
fn test_range_check() {
    for i in 0..8 {
        let circuit: MyCircuit<8> = MyCircuit(i);
        let prover = MockProver::run(3, &circuit, vec![]).unwrap();
        assert_eq!(prover.verify(), Ok(()));
    }

    {
        let circuit: MyCircuit<8> = MyCircuit(8);
        let prover = MockProver::run(3, &circuit, vec![]).unwrap();
        assert_eq!(
            prover.verify(),
            Err(vec![Violation::ConstraintNotSatisfied {
                gate: 0,
                constraint: 0,
                row: 0,
                location: Location::InRegion { region: 0, offset: 0 },
                cell_values: vec![(
                    Column { kind: ColumnKind::Advice, index: 0 },
                    Rotation(0),
                    CellValue::Known(Fe::from_u64(8)),
                )],
            }]),
        );
        assert_eq!(prover.cs.gates[0].name, "range check");
        assert_eq!(prover.layout.regions[0].name, "range constrain");
    }
}

#[test]
fn range_check_values_far_out_of_range() {
    for i in [9u8, 100, 255] {
        let prover = MockProver::run(3, &MyCircuit::<8>(i), vec![]).unwrap();
        assert_eq!(prover.verify().unwrap_err().len(), 1);
    }
}

#[test]
fn bool_check_accepts_only_bits() {
    for i in 0..2 {
        let prover = MockProver::run(3, &MyCircuit::<2>(i), vec![]).unwrap();
        assert_eq!(prover.verify(), Ok(()));
    }
    let prover = MockProver::run(3, &MyCircuit::<2>(2), vec![]).unwrap();
    assert_eq!(prover.verify().unwrap_err().len(), 1);
}

#[test]
fn too_many_rows_refused() {
    assert_eq!(MockProver::run(29, &MyCircuit::<8>(1), vec![]).err(), Some(Error::TooManyRows));
}

#[test]
fn range_constrained_keeps_cell_and_bits() {
    let cell = AssignedCell {
        cell: CellRef { column: Column { kind: ColumnKind::Advice, index: 2 }, row: 5 },
        value: Value::known(Fe::from_u64(3)),
    };
    let rc = RangeConstrained::unsound_unchecked(cell, 4);
    assert_eq!(*rc.inner(), cell);
    assert_eq!(rc.num_bits(), 4);
    let v = rc.value();
    assert_eq!(*v.inner(), Value::known(Fe::from_u64(3)));
    assert_eq!(v.num_bits(), 4);
}

#[test]
fn range_tables_load_their_values() {
    let mut cs = ConstraintSystem::new();
    let single = RangeCheckTable::<4>::configure(&mut cs);
    let pair = RangeBitsTable::<4, 2>::configure(&mut cs);
    let mut layouter = Layouter::new(8, &cs, &vec![]);
    single.load(&mut layouter).unwrap();
    pair.load(&mut layouter).unwrap();
    for v in 0..4u64 {
        assert_eq!(layouter.table.get(single.value, v as usize), CellValue::Known(Fe::from_u64(v)));
        assert_eq!(layouter.table.get(pair.value, v as usize), CellValue::Known(Fe::from_u64(v)));
        assert_eq!(layouter.table.get(pair.num_bits, v as usize), CellValue::Known(Fe::from_u64(2)));
    }
    assert_eq!(layouter.table.get(single.value, 4), CellValue::Unassigned);
    let mut small = Layouter::new(2, &cs, &vec![]);
    assert!(single.load(&mut small).is_err());
}

#[test]
fn range_check_mock_run_verdict() {
    for i in 0..8u8 {
        let prover = MyCircuit::<8>(i).mock_run(3, vec![]).unwrap();
        assert_eq!(prover.verify(), Ok(()));
    }
    for i in 8..=255u8 {
        let prover = MyCircuit::<8>(i).mock_run(3, vec![]).unwrap();
        let errs = prover.verify().unwrap_err();
        assert_eq!(errs.len(), 1);
        assert!(matches!(errs[0], Violation::ConstraintNotSatisfied { gate: 0, constraint: 0, row: 0, .. }));
    }
    assert!(MyCircuit::<8>(1).mock_run(3, vec![vec![]]).is_err());
}
