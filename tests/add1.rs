use halo2_examples::add1::MyCircuit;
use halo2_examples::field::Fe;
use halo2_examples::prover::{MockProver, Violation};

fn add_circuit(scalar: u64, value: u64, nrows: usize) -> MyCircuit {
    MyCircuit {
        scalar: Fe::from_u64(scalar),
        value: Fe::from_u64(value),
        nrows,
    }
}

#[test]
fn add_scalar_small() {
    let k = 5;
    let scalar = 1;
    let value = 1;
    let nrows = 10;
    let out = Fe::from_u64(10);
    let circuit = add_circuit(scalar, value, nrows);
    let public_input = vec![out];
    let prover = MockProver::run(k, &circuit, vec![public_input.clone()]).unwrap();
    assert_eq!(prover.verify(), Ok(()));
}

#[test]
fn add_scalar_wrong_output_is_one_public_violation() {
    let circuit = add_circuit(1, 1, 10);
    for wrong in [0u64, 9, 11, 12345] {
        let prover = MockProver::run(5, &circuit, vec![vec![Fe::from_u64(wrong)]]).unwrap();
        let errs = prover.verify().unwrap_err();
        assert_eq!(errs.len(), 1);
        assert!(matches!(errs[0], Violation::Public { .. }));
    }
}

#[test]
fn common_inputs_are_one() {
    let (scalar, value) = halo2_examples::add1::common();
    assert_eq!(scalar, Fe::one());
    assert_eq!(value, Fe::one());
}

#[test]
fn add_scalar_other_step() {
    // 5 + 8 * 3 = 29 on row 9
    let circuit = add_circuit(3, 5, 9);
    let prover = MockProver::run(5, &circuit, vec![vec![Fe::from_u64(29)]]).unwrap();
    assert_eq!(prover.verify(), Ok(()));
    assert_eq!(circuit.without_witnesses().nrows, 0);
}

#[test]
fn add_scalar_too_many_rows_for_table() {
    let circuit = add_circuit(1, 1, 40);
    assert_eq!(
        MockProver::run(5, &circuit, vec![vec![Fe::from_u64(40)]]).err(),
        Some(halo2_examples::error::Error::NotEnoughRowsAvailable)
    );
}

#[test]
fn add_scalar_mock_run_verdict() {
    let circuit = add_circuit(1, 1, 10);
    let prover = circuit.mock_run(5, vec![vec![Fe::from_u64(10)]]).unwrap();
    assert_eq!(prover.verify(), Ok(()));
    let prover = circuit.mock_run(5, vec![vec![Fe::from_u64(11)]]).unwrap();
    let errs = prover.verify().unwrap_err();
    assert_eq!(errs.len(), 1);
    assert!(matches!(errs[0], Violation::Public { .. }));
}

#[test]
fn add_scalar_mock_run_refusals() {
    assert!(add_circuit(1, 1, 1).mock_run(5, vec![vec![Fe::from_u64(1)]]).is_err());
    assert!(add_circuit(1, 1, 32).mock_run(5, vec![vec![Fe::from_u64(32)]]).is_err());
    assert!(add_circuit(1, 1, 10).mock_run(5, vec![]).is_err());
    assert!(add_circuit(1, 1, 10).mock_run(29, vec![vec![Fe::from_u64(10)]]).is_err());
}
