use halo2_examples::field::Fe;
use halo2_examples::fibonacci::MyCircuit;
use halo2_examples::prover::{MockProver, Violation};

#[test]
fn fibonacci_example_small() {
    let k = 5;
    let a = Fe::from_u64(1);
    let b = Fe::from_u64(1);
    let out = Fe::from_u64(55);
    let circuit = MyCircuit;
    let public_input = vec![a, b, out];
    let prover = MockProver::run(k, &circuit, vec![public_input.clone()]).unwrap();
    assert_eq!(prover.verify(), Ok(()));
}

#[test]
fn fibonacci_wrong_output_is_reported() {
    let public_input = vec![Fe::from_u64(1), Fe::from_u64(1), Fe::from_u64(56)];
    let prover = MockProver::run(5, &MyCircuit, vec![public_input]).unwrap();
    let errs = prover.verify().unwrap_err();
    assert_eq!(errs.len(), 1);
    assert!(matches!(errs[0], Violation::Public { .. }));
}

#[test]
fn fibonacci_other_seeds() {
    // a = 2, b = 3: 2, 3, 5, 8, 13, 21, 34, 55, 89, 144
    let public_input = vec![Fe::from_u64(2), Fe::from_u64(3), Fe::from_u64(144)];
    let prover = MockProver::run(4, &MyCircuit, vec![public_input]).unwrap();
    assert_eq!(prover.verify(), Ok(()));
}

#[test]
fn fibonacci_missing_instances_refused() {
    assert!(MockProver::run(5, &MyCircuit, vec![]).is_err());
}

#[test]
fn fibonacci_mock_run_verdict() {
    let ok = MyCircuit
        .mock_run(5, vec![vec![Fe::from_u64(1), Fe::from_u64(1), Fe::from_u64(55)]])
        .unwrap();
    assert_eq!(ok.verify(), Ok(()));
    let bad = MyCircuit
        .mock_run(5, vec![vec![Fe::from_u64(1), Fe::from_u64(1), Fe::from_u64(54)]])
        .unwrap();
    assert_eq!(bad.verify().unwrap_err().len(), 1);
    assert!(MyCircuit.mock_run(2, vec![vec![Fe::from_u64(1), Fe::from_u64(1)]]).is_err());
}
