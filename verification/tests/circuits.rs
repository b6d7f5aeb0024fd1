use plonk_mock::circuit::{run_mock_prover, MaliciousCircuit, MulCircuit};
use plonk_mock::field::Felt;
use plonk_mock::layout::Layouter;
use plonk_mock::prover::MockProver;
use plonk_mock::system::ConstraintSystem;
use plonk_mock::Error;

#[test]
fn honest_circuit_fails_only_the_constant_check() {
    // 5 -> 25 -> 125 -> 15625, then 15625 is bound to the constant
    // 4272253717090457; in a large prime field the two differ, so exactly
    // the fixed-check gate and the copy constraint to the fixed cell fail.
    let circuit = MulCircuit { secret: Some(Felt::from_u64(5)) };
    let report = run_mock_prover(&circuit, 20, vec![]).expect("run");
    assert!(!report.ok);
    assert_eq!(report.gate_failures.len(), 1);
    assert_eq!(report.gate_failures[0].gate_name, "fixed equal-constant check");
    assert_eq!(report.gate_failures[0].row, 19);
    assert_eq!(report.copy_failures.len(), 1);
}

#[test]
fn chain_without_constant_check_passes() {
    // the same power chain, stopped before the constant check, is clean
    let circuit = MaliciousCircuit {
        value1: Some(Felt::from_u64(5)),
        value2: Some(Felt::from_u64(25)),
    };
    let report = run_mock_prover(&circuit, 8, vec![]).expect("run");
    assert!(report.ok);
}

#[test]
fn unconstrained_inputs_pass_every_check() {
    // the deliberate bug: 5 and 10 are never tied to any verified value, so
    // gate checking and copy checking both succeed — the checker only flags
    // constraints the circuit actually wrote.
    let circuit = MaliciousCircuit {
        value1: Some(Felt::from_u64(5)),
        value2: Some(Felt::from_u64(10)),
    };
    let report = run_mock_prover(&circuit, 8, vec![]).expect("run");
    assert!(report.ok);
    assert_eq!(report.gate_failures.len(), 0);
    assert_eq!(report.copy_failures.len(), 0);
}

#[test]
fn identical_runs_produce_identical_reports() {
    let circuit = MulCircuit { secret: Some(Felt::from_u64(5)) };
    let first = run_mock_prover(&circuit, 20, vec![]).expect("first run");
    let second = run_mock_prover(&circuit, 20, vec![]).expect("second run");
    assert_eq!(first, second);
}

#[test]
fn witnessless_run_reports_missing_assignments() {
    let circuit = MulCircuit { secret: Some(Felt::from_u64(5)) };
    let blank = circuit.without_witnesses();
    assert!(blank.secret.is_none());
    let result = run_mock_prover(&blank, 20, vec![]);
    assert_eq!(result, Err(Error::MissingAssignment));
}

#[test]
fn honest_circuit_needs_twenty_rows() {
    let circuit = MulCircuit { secret: Some(Felt::from_u64(5)) };
    let result = run_mock_prover(&circuit, 4, vec![]);
    assert!(result.is_err());
}

#[test]
fn mul_sugar_matches_mul() {
    let mut cs = ConstraintSystem::new();
    let config = MulCircuit::configure(&mut cs).expect("configure");
    cs.freeze();
    let mut lay = Layouter::new(cs, 16);
    let x = MulCircuit::unconstrained(&config, &mut lay, Some(Felt::from_u64(6)))
        .expect("free variable");
    let y = MulCircuit::unconstrained(&config, &mut lay, Some(Felt::from_u64(7)))
        .expect("free variable");
    let product = MulCircuit::mul_sugar(&config, &mut lay, x, y).expect("mul sugar");
    assert!(product.value().expect("known").equals(&Felt::from_u64(42)));
    let report = MockProver::evaluate(&lay).expect("evaluate");
    assert!(report.ok);
}

#[test]
fn large_values_wrap_modularly() {
    // (2^64 - 1)^2 stays far below the modulus, so the product is exact
    let mut cs = ConstraintSystem::new();
    let config = MulCircuit::configure(&mut cs).expect("configure");
    cs.freeze();
    let mut lay = Layouter::new(cs, 16);
    let big = u64::MAX as u128;
    let x = MulCircuit::unconstrained(&config, &mut lay, Some(Felt::from_u128(big)))
        .expect("free variable");
    let y = MulCircuit::unconstrained(&config, &mut lay, Some(Felt::from_u128(big)))
        .expect("free variable");
    let product = MulCircuit::mul(&config, &mut lay, x, y).expect("mul");
    assert!(product
        .value()
        .expect("known")
        .equals(&Felt::from_u128(big * big)));
    let report = MockProver::evaluate(&lay).expect("evaluate");
    assert!(report.ok);
}
