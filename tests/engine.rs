use halo2_examples::constraint_system::{ConstraintSystem, Selector};
use halo2_examples::error::Error;
use halo2_examples::expression::{Expression, Rotation};
use halo2_examples::field::Fe;
use halo2_examples::layout::Layouter;
use halo2_examples::prover::{Circuit, Location, MockProver, Violation};
use halo2_examples::range_table::RangeCheckTable;
use halo2_examples::table::Column;
use halo2_examples::value::Value;

/// `s * (a - b)` on one advice pair, enabled only on the rows listed.
struct DiffCircuit {
    rows: Vec<(u64, u64, bool)>,
}

#[derive(Clone, Copy)]
struct DiffConfig {
    s: Selector,
    a: Column,
    b: Column,
}

impl Circuit for DiffCircuit {
    type Config = DiffConfig;

    fn configure(cs: &mut ConstraintSystem) -> DiffConfig {
        let s = cs.selector();
        let a = cs.advice_column();
        let b = cs.advice_column();
        let gate = cs
            .query_selector(s)
            .mul(cs.query_advice(a, Rotation::cur()).sub(cs.query_advice(b, Rotation::cur())));
        cs.create_gate("diff".to_string(), vec![gate]).unwrap();
        DiffConfig { s, a, b }
    }

    fn synthesize(&self, config: &DiffConfig, layouter: &mut Layouter) -> Result<(), Error> {
        layouter.assign_region("rows".to_string());
        for (i, (x, y, on)) in self.rows.iter().enumerate() {
            if *on {
                layouter.enable_selector(config.s, i)?;
            }
            layouter.assign_advice(config.a, i, Value::known(Fe::from_u64(*x)))?;
            layouter.assign_advice(config.b, i, Value::known(Fe::from_u64(*y)))?;
        }
        Ok(())
    }
}

#[test]
fn selector_off_rows_never_violate() {
    let circuit = DiffCircuit { rows: vec![(3, 3, true), (1, 2, false), (7, 9, false)] };
    let prover = MockProver::run(3, &circuit, vec![]).unwrap();
    assert_eq!(prover.verify(), Ok(()));
}

#[test]
fn selector_on_row_with_wrong_values_violates_once() {
    let circuit = DiffCircuit { rows: vec![(3, 3, true), (1, 2, true), (7, 9, false)] };
    let prover = MockProver::run(3, &circuit, vec![]).unwrap();
    let errs = prover.verify().unwrap_err();
    assert_eq!(errs.len(), 1);
    match &errs[0] {
        Violation::ConstraintNotSatisfied { gate, constraint, row, location, .. } => {
            assert_eq!((*gate, *constraint, *row), (0, 0, 1));
            assert_eq!(*location, Location::InRegion { region: 0, offset: 1 });
        }
        other => panic!("unexpected violation {:?}", other),
    }
}

#[test]
fn unassigned_cell_under_active_selector_is_an_error() {
    struct Half;
    impl Circuit for Half {
        type Config = DiffConfig;
        fn configure(cs: &mut ConstraintSystem) -> DiffConfig {
            DiffCircuit::configure(cs)
        }
        fn synthesize(&self, config: &DiffConfig, layouter: &mut Layouter) -> Result<(), Error> {
            layouter.assign_region("half".to_string());
            layouter.enable_selector(config.s, 0)?;
            layouter.assign_advice(config.a, 0, Value::known(Fe::from_u64(1)))?;
            Ok(())
        }
    }
    assert!(matches!(
        MockProver::run(3, &Half, vec![]).err(),
        Some(Error::GateCellNotAssigned { gate: 0, constraint: 0, row: 0 })
    ));
}

/// Copies a cell of column `a` into column `b`, then writes `forced` over
/// the copy when it is given.
struct CopyCircuit {
    value: u64,
    forced: Option<u64>,
}

impl Circuit for CopyCircuit {
    type Config = (Column, Column);

    fn configure(cs: &mut ConstraintSystem) -> (Column, Column) {
        let a = cs.advice_column();
        let b = cs.advice_column();
        cs.enable_equality(a).unwrap();
        cs.enable_equality(b).unwrap();
        (a, b)
    }

    fn synthesize(&self, config: &(Column, Column), layouter: &mut Layouter) -> Result<(), Error> {
        layouter.assign_region("copy".to_string());
        let src = layouter.assign_advice(config.0, 0, Value::known(Fe::from_u64(self.value)))?;
        layouter.copy_advice(&src, config.1, 1)?;
        if let Some(v) = self.forced {
            layouter.assign_advice(config.1, 1, Value::known(Fe::from_u64(v)))?;
        }
        Ok(())
    }
}

#[test]
fn copy_advice_round_trip_is_satisfied() {
    let prover = MockProver::run(3, &CopyCircuit { value: 42, forced: None }, vec![]).unwrap();
    assert_eq!(prover.verify(), Ok(()));
    assert_eq!(prover.layout.copies.len(), 1);
}

#[test]
fn copy_advice_mismatch_is_one_equality_violation() {
    let prover = MockProver::run(3, &CopyCircuit { value: 42, forced: Some(43) }, vec![]).unwrap();
    let errs = prover.verify().unwrap_err();
    assert_eq!(errs.len(), 1);
    assert!(matches!(errs[0], Violation::Equality { .. }));
}

#[test]
fn copy_needs_equality_enabled() {
    struct NoEq;
    impl Circuit for NoEq {
        type Config = (Column, Column);
        fn configure(cs: &mut ConstraintSystem) -> (Column, Column) {
            (cs.advice_column(), cs.advice_column())
        }
        fn synthesize(&self, config: &(Column, Column), layouter: &mut Layouter) -> Result<(), Error> {
            layouter.assign_region("copy".to_string());
            let src = layouter.assign_advice(config.0, 0, Value::known(Fe::from_u64(1)))?;
            layouter.copy_advice(&src, config.1, 1)?;
            Ok(())
        }
    }
    assert!(matches!(
        MockProver::run(3, &NoEq, vec![]).err(),
        Some(Error::EqualityNotEnabled(_))
    ));
}

/// Looks up `q * value` in a table holding `0..8`, with `q` on at row 0 only.
struct LookupCircuit {
    value: u64,
}

#[derive(Clone, Copy)]
struct LookupConfig {
    q: Selector,
    advice: Column,
    table: RangeCheckTable<8>,
}

impl Circuit for LookupCircuit {
    type Config = LookupConfig;

    fn configure(cs: &mut ConstraintSystem) -> LookupConfig {
        let q = cs.complex_selector();
        let advice = cs.advice_column();
        let table = RangeCheckTable::<8>::configure(cs);
        let input = cs.query_selector(q).mul(cs.query_advice(advice, Rotation::cur()));
        cs.lookup("range".to_string(), vec![input], vec![table.value]).unwrap();
        LookupConfig { q, advice, table }
    }

    fn synthesize(&self, config: &LookupConfig, layouter: &mut Layouter) -> Result<(), Error> {
        config.table.load(layouter)?;
        layouter.assign_region("value".to_string());
        layouter.enable_selector(config.q, 0)?;
        layouter.assign_advice(config.advice, 0, Value::known(Fe::from_u64(self.value)))?;
        layouter.assign_advice(config.advice, 1, Value::known(Fe::from_u64(1000)))?;
        Ok(())
    }
}

#[test]
fn lookup_inside_table_is_satisfied() {
    for v in 0..8 {
        let prover = MockProver::run(4, &LookupCircuit { value: v }, vec![]).unwrap();
        assert_eq!(prover.verify(), Ok(()));
    }
}

#[test]
fn lookup_of_range_is_one_violation_at_its_row() {
    let prover = MockProver::run(4, &LookupCircuit { value: 8 }, vec![]).unwrap();
    assert_eq!(
        prover.verify(),
        Err(vec![Violation::Lookup {
            lookup: 0,
            row: 0,
            location: Location::InRegion { region: 0, offset: 0 },
        }])
    );
}

#[test]
fn simple_selector_refused_in_lookup() {
    let mut cs = ConstraintSystem::new();
    let q = cs.selector();
    let t = cs.lookup_table_column();
    let input = cs.query_selector(q);
    assert_eq!(cs.lookup("bad".to_string(), vec![input], vec![t]), Err(Error::MalformedArgument));
    assert_eq!(cs.lookups.len(), 0);
}

#[test]
fn table_reload_with_other_value_conflicts() {
    let mut cs = ConstraintSystem::new();
    let t = cs.lookup_table_column();
    let mut layouter = Layouter::new(8, &cs, &vec![]);
    layouter.assign_table(t, 2, Value::known(Fe::from_u64(5))).unwrap();
    layouter.assign_table(t, 2, Value::known(Fe::from_u64(5))).unwrap();
    assert!(matches!(
        layouter.assign_table(t, 2, Value::known(Fe::from_u64(6))),
        Err(Error::ConflictingTableValue(_))
    ));
}

#[test]
fn configure_is_deterministic() {
    let mut first = ConstraintSystem::new();
    let mut second = ConstraintSystem::new();
    let c1 = halo2_examples::fibonacci::MyCircuit::configure(&mut first);
    let c2 = halo2_examples::fibonacci::MyCircuit::configure(&mut second);
    assert_eq!(c1, c2);
    assert_eq!(first, second);
    let mut third = ConstraintSystem::new();
    let mut fourth = ConstraintSystem::new();
    <halo2_examples::range_check::MyCircuit<8> as Circuit>::configure(&mut third);
    <halo2_examples::range_check::MyCircuit<8> as Circuit>::configure(&mut fourth);
    assert_eq!(third, fourth);
}

#[test]
fn equality_only_on_advice_and_instance() {
    let mut cs = ConstraintSystem::new();
    let f = cs.fixed_column();
    let t = cs.lookup_table_column();
    assert_eq!(cs.enable_equality(f), Err(Error::EqualityNotSupported(f)));
    assert_eq!(cs.enable_equality(t), Err(Error::EqualityNotSupported(t)));
    let undeclared = Column { kind: halo2_examples::table::ColumnKind::Advice, index: 3 };
    assert_eq!(cs.enable_equality(undeclared), Err(Error::ColumnNotDeclared(undeclared)));
}

#[test]
fn dry_run_without_witnesses_has_no_violations() {
    struct Dry;
    impl Circuit for Dry {
        type Config = DiffConfig;
        fn configure(cs: &mut ConstraintSystem) -> DiffConfig {
            DiffCircuit::configure(cs)
        }
        fn synthesize(&self, config: &DiffConfig, layouter: &mut Layouter) -> Result<(), Error> {
            layouter.assign_region("dry".to_string());
            layouter.enable_selector(config.s, 0)?;
            layouter.assign_advice(config.a, 0, Value::unknown())?;
            layouter.assign_advice(config.b, 0, Value::known(Fe::from_u64(4)))?;
            Ok(())
        }
    }
    let prover = MockProver::run(3, &Dry, vec![]).unwrap();
    assert_eq!(prover.verify(), Ok(()));
}

#[test]
fn field_arithmetic_wraps_at_the_modulus() {
    let one = Fe::from_u64(1);
    let minus_one = one.neg();
    assert_eq!(minus_one.add(&one), Fe::zero());
    assert!(!minus_one.is_zero());
    assert_eq!(Fe::from_u64(6).mul(&Fe::from_u64(7)), Fe::from_u64(42));
    assert_eq!(Fe::from_u64(5).sub(&Fe::from_u64(7)), Fe::from_u64(2).neg());
    let inv = Fe::from_u64(3).invert();
    assert_eq!(inv.mul(&Fe::from_u64(3)), one);
    assert_eq!(Fe::zero().invert(), Fe::zero());
    assert!(Fe::from_u64(9).equals(&Fe::from_u64(9)));
    assert!(!Fe::from_u64(9).equals(&Fe::from_u64(10)));
}

#[test]
fn expression_evaluation_reads_rotated_cells() {
    let mut cs = ConstraintSystem::new();
    let a = cs.advice_column();
    let mut layouter = Layouter::new(4, &cs, &vec![]);
    layouter.assign_region("r".to_string());
    layouter.assign_advice(a, 0, Value::known(Fe::from_u64(2))).unwrap();
    layouter.assign_advice(a, 1, Value::known(Fe::from_u64(5))).unwrap();
    let e = Expression::cell(a, Rotation::next())
        .mul(Expression::constant(Fe::from_u64(3)))
        .sub(Expression::cell(a, Rotation::cur()));
    assert_eq!(
        e.evaluate(&layouter.table, 0),
        halo2_examples::value::CellValue::Known(Fe::from_u64(13))
    );
    assert_eq!(e.evaluate(&layouter.table, 3), halo2_examples::value::CellValue::Unassigned);
}

#[test]
fn region_errors() {
    let mut cs = ConstraintSystem::new();
    let a = cs.advice_column();
    let f = cs.fixed_column();
    let inst = cs.instance_column();
    cs.enable_equality(a).unwrap();
    let mut layouter = Layouter::new(4, &cs, &vec![vec![Fe::from_u64(7)]]);
    assert_eq!(
        layouter.assign_advice(a, 0, Value::known(Fe::one())).err(),
        Some(Error::NoRegion)
    );
    layouter.assign_region("r".to_string());
    assert_eq!(
        layouter.assign_advice(f, 0, Value::known(Fe::one())).err(),
        Some(Error::WrongColumnKind(f))
    );
    assert_eq!(
        layouter.assign_advice(a, 4, Value::known(Fe::one())).err(),
        Some(Error::NotEnoughRowsAvailable)
    );
    let cell = layouter.assign_advice(a, 3, Value::known(Fe::one())).unwrap();
    assert_eq!(
        layouter.constrain_instance(cell.cell(), inst, 9),
        Err(Error::CellNotAssigned(halo2_examples::table::CellRef { column: inst, row: 9 }))
    );
    let copied = layouter.assign_advice_from_instance(inst, 0, a, 1);
    assert_eq!(copied.err(), Some(Error::EqualityNotEnabled(inst)));
}

#[test]
fn unassigned_lookup_input_is_an_error() {
    struct Gap;
    impl Circuit for Gap {
        type Config = LookupConfig;
        fn configure(cs: &mut ConstraintSystem) -> LookupConfig {
            LookupCircuit::configure(cs)
        }
        fn synthesize(&self, config: &LookupConfig, layouter: &mut Layouter) -> Result<(), Error> {
            config.table.load(layouter)?;
            layouter.assign_region("value".to_string());
            layouter.enable_selector(config.q, 0)?;
            Ok(())
        }
    }
    assert_eq!(
        MockProver::run(4, &Gap, vec![]).err(),
        Some(Error::LookupCellNotAssigned { lookup: 0, input: 0, row: 0 })
    );
}

#[test]
fn public_input_copied_into_advice() {
    struct Seed;
    impl Circuit for Seed {
        type Config = (Column, Column);
        fn configure(cs: &mut ConstraintSystem) -> (Column, Column) {
            let a = cs.advice_column();
            let inst = cs.instance_column();
            cs.enable_equality(a).unwrap();
            cs.enable_equality(inst).unwrap();
            (a, inst)
        }
        fn synthesize(&self, config: &(Column, Column), layouter: &mut Layouter) -> Result<(), Error> {
            layouter.assign_region("seed".to_string());
            let cell = layouter.assign_advice_from_instance(config.1, 1, config.0, 0)?;
            assert_eq!(cell.value(), Value::known(Fe::from_u64(9)));
            Ok(())
        }
    }
    let prover = MockProver::run(3, &Seed, vec![vec![Fe::from_u64(4), Fe::from_u64(9)]]).unwrap();
    assert_eq!(prover.verify(), Ok(()));
    assert_eq!(prover.layout.copies.len(), 1);
}

#[test]
fn copy_of_unknown_value_is_reported() {
    struct UnknownCopy;
    impl Circuit for UnknownCopy {
        type Config = (Column, Column);
        fn configure(cs: &mut ConstraintSystem) -> (Column, Column) {
            CopyCircuit::configure(cs)
        }
        fn synthesize(&self, config: &(Column, Column), layouter: &mut Layouter) -> Result<(), Error> {
            layouter.assign_region("copy".to_string());
            let src = layouter.assign_advice(config.0, 0, Value::unknown())?;
            layouter.copy_advice(&src, config.1, 1)?;
            Ok(())
        }
    }
    let prover = MockProver::run(3, &UnknownCopy, vec![]).unwrap();
    let errs = prover.verify().unwrap_err();
    assert_eq!(errs.len(), 1);
    assert!(matches!(errs[0], Violation::Equality { .. }));
}
