use plonk_mock::circuit::{MulCircuit, MulConfig};
use plonk_mock::field::Felt;
use plonk_mock::layout::Layouter;
use plonk_mock::prover::MockProver;
use plonk_mock::system::ConstraintSystem;
use plonk_mock::Error;

fn configured_layouter(num_rows: usize) -> (Layouter, MulConfig) {
    let mut cs = ConstraintSystem::new();
    let config = MulCircuit::configure(&mut cs).expect("configure");
    cs.freeze();
    (Layouter::new(cs, num_rows), config)
}

fn assign_three(
    layouter: &mut Layouter,
    config: &MulConfig,
    a: u64,
    b: u64,
    c: u64,
    selector: plonk_mock::system::Selector,
) {
    let mut region = layouter.begin_region();
    region
        .assign_advice(layouter, config.advice, 0, Some(Felt::from_u64(a)))
        .expect("assign a");
    region
        .assign_advice(layouter, config.advice, 1, Some(Felt::from_u64(b)))
        .expect("assign b");
    region
        .assign_advice(layouter, config.advice, 2, Some(Felt::from_u64(c)))
        .expect("assign c");
    selector.enable(&mut region, layouter, 0).expect("enable");
    layouter.commit_region(region);
}

#[test]
fn mul_gate_accepts_exact_product() {
    let (mut lay, config) = configured_layouter(8);
    assign_three(&mut lay, &config, 3, 4, 12, config.q_mul_enable);
    let report = MockProver::evaluate(&lay).expect("evaluate");
    assert!(report.ok);
    assert_eq!(report.gate_failures.len(), 0);
    assert_eq!(report.copy_failures.len(), 0);
}

#[test]
fn mul_gate_rejects_wrong_product() {
    let (mut lay, config) = configured_layouter(8);
    assign_three(&mut lay, &config, 3, 4, 11, config.q_mul_enable);
    let report = MockProver::evaluate(&lay).expect("evaluate");
    assert!(!report.ok);
    assert_eq!(report.gate_failures.len(), 1);
    assert_eq!(report.copy_failures.len(), 0);
    let failure = &report.gate_failures[0];
    assert_eq!(failure.gate_name, "vertical-mul");
    assert_eq!(failure.row, 0);
    // the reported value is the difference 3 * 4 - 11 = 1
    assert!(failure.value.equals(&Felt::from_u64(1)));
}

#[test]
fn add_gate_accepts_exact_sum() {
    let (mut lay, config) = configured_layouter(8);
    assign_three(&mut lay, &config, 3, 4, 7, config.q_add_enable);
    let report = MockProver::evaluate(&lay).expect("evaluate");
    assert!(report.ok);
}

#[test]
fn add_gate_rejects_wrong_sum() {
    let (mut lay, config) = configured_layouter(8);
    assign_three(&mut lay, &config, 30, 12, 43, config.q_add_enable);
    let report = MockProver::evaluate(&lay).expect("evaluate");
    assert!(!report.ok);
    assert_eq!(report.gate_failures.len(), 1);
    assert_eq!(report.gate_failures[0].gate_name, "vertical-add");
    assert_eq!(report.gate_failures[0].row, 0);
    // 30 + 12 - 43 = -1, which is modulus - 1, a nonzero element
    assert!(!report.gate_failures[0].value.is_zero());
}

#[test]
fn disabled_gate_constrains_nothing() {
    let (mut lay, config) = configured_layouter(8);
    // wrong product, but no selector enabled anywhere
    let mut region = lay.begin_region();
    region
        .assign_advice(&mut lay, config.advice, 0, Some(Felt::from_u64(3)))
        .expect("assign");
    region
        .assign_advice(&mut lay, config.advice, 1, Some(Felt::from_u64(4)))
        .expect("assign");
    region
        .assign_advice(&mut lay, config.advice, 2, Some(Felt::from_u64(999)))
        .expect("assign");
    lay.commit_region(region);
    let report = MockProver::evaluate(&lay).expect("evaluate");
    assert!(report.ok);
}

#[test]
fn perturbed_intermediate_fails_at_its_own_row() {
    // chain 5 -> 5*5=25 -> 25*5=126 (wrong) with the correct steps enabled:
    // exactly one failure, at the second multiplication's region.
    let (mut lay, config) = configured_layouter(16);
    assign_three(&mut lay, &config, 5, 5, 25, config.q_mul_enable);
    assign_three(&mut lay, &config, 25, 5, 126, config.q_mul_enable);
    assign_three(&mut lay, &config, 126, 25, 3150, config.q_mul_enable);
    let report = MockProver::evaluate(&lay).expect("evaluate");
    assert!(!report.ok);
    assert_eq!(report.gate_failures.len(), 1);
    assert_eq!(report.gate_failures[0].row, 3);
    assert_eq!(report.gate_failures[0].gate_name, "vertical-mul");
}

#[test]
fn copy_constraint_reports_disagreeing_cells() {
    // two cells holding 5 and 10, constrained equal, nothing else relating
    // them: every gate passes, and exactly one copy failure names both.
    let (mut lay, config) = configured_layouter(8);
    let mut region = lay.begin_region();
    let a = region
        .assign_advice(&mut lay, config.advice, 0, Some(Felt::from_u64(5)))
        .expect("assign a");
    let b = region
        .assign_advice(&mut lay, config.advice, 1, Some(Felt::from_u64(10)))
        .expect("assign b");
    region
        .constrain_equal(&mut lay, a.cell(), b.cell())
        .expect("constrain");
    lay.commit_region(region);
    let report = MockProver::evaluate(&lay).expect("evaluate");
    assert!(!report.ok);
    assert_eq!(report.gate_failures.len(), 0);
    assert_eq!(report.copy_failures.len(), 1);
    let cells = &report.copy_failures[0].cells;
    assert_eq!(cells.len(), 2);
    assert_eq!(cells[0], a.cell());
    assert_eq!(cells[1], b.cell());
}

#[test]
fn copy_constraint_accepts_equal_values() {
    let (mut lay, config) = configured_layouter(8);
    let mut region = lay.begin_region();
    let a = region
        .assign_advice(&mut lay, config.advice, 0, Some(Felt::from_u64(7)))
        .expect("assign a");
    let b = region
        .assign_advice(&mut lay, config.advice, 1, Some(Felt::from_u64(7)))
        .expect("assign b");
    region
        .constrain_equal(&mut lay, a.cell(), b.cell())
        .expect("constrain");
    lay.commit_region(region);
    let report = MockProver::evaluate(&lay).expect("evaluate");
    assert!(report.ok);
}

#[test]
fn regions_never_share_rows() {
    let (mut lay, config) = configured_layouter(8);
    let mut r1 = lay.begin_region();
    let c1 = r1
        .assign_advice(&mut lay, config.advice, 0, Some(Felt::from_u64(1)))
        .expect("assign");
    let c2 = r1
        .assign_advice(&mut lay, config.advice, 1, Some(Felt::from_u64(2)))
        .expect("assign");
    lay.commit_region(r1);
    let mut r2 = lay.begin_region();
    let c3 = r2
        .assign_advice(&mut lay, config.advice, 0, Some(Felt::from_u64(3)))
        .expect("assign");
    lay.commit_region(r2);
    assert_eq!(c1.cell().row, 0);
    assert_eq!(c2.cell().row, 1);
    assert_eq!(c3.cell().row, 2);
}

#[test]
fn rotation_past_grid_end_is_rejected_at_synthesis() {
    // the multiplication gate reads two rows down; on a 2-row grid enabling
    // it at row 0 would read row 2, one past the end
    let (mut lay, config) = configured_layouter(2);
    let mut region = lay.begin_region();
    let result = config.q_mul_enable.enable(&mut region, &mut lay, 0);
    assert_eq!(result, Err(Error::OutOfRangeRotation));
}

#[test]
fn rotation_within_grid_is_accepted() {
    let (mut lay, config) = configured_layouter(3);
    let mut region = lay.begin_region();
    let result = config.q_mul_enable.enable(&mut region, &mut lay, 0);
    assert_eq!(result, Ok(()));
}

#[test]
fn double_assignment_is_rejected() {
    let (mut lay, config) = configured_layouter(8);
    let mut region = lay.begin_region();
    region
        .assign_advice(&mut lay, config.advice, 0, Some(Felt::from_u64(1)))
        .expect("first assignment");
    let second = region.assign_advice(&mut lay, config.advice, 0, Some(Felt::from_u64(2)));
    assert!(matches!(second, Err(Error::DoubleAssignment)));
}

#[test]
fn equality_without_support_is_rejected() {
    let mut cs = ConstraintSystem::new();
    let col = cs.advice_column();
    cs.freeze();
    let mut lay = Layouter::new(cs, 4);
    let mut region = lay.begin_region();
    let a = region
        .assign_advice(&mut lay, col, 0, Some(Felt::from_u64(1)))
        .expect("assign a");
    let b = region
        .assign_advice(&mut lay, col, 1, Some(Felt::from_u64(1)))
        .expect("assign b");
    let result = region.constrain_equal(&mut lay, a.cell(), b.cell());
    assert_eq!(result, Err(Error::EqualityNotEnabled));
}

#[test]
fn region_beyond_grid_is_rejected() {
    let (mut lay, config) = configured_layouter(2);
    let mut region = lay.begin_region();
    let result = region.assign_advice(&mut lay, config.advice, 2, Some(Felt::from_u64(1)));
    assert!(matches!(result, Err(Error::NotEnoughRows)));
}

#[test]
fn missing_assignment_under_enabled_gate_is_fatal() {
    let (mut lay, config) = configured_layouter(8);
    let mut region = lay.begin_region();
    region
        .assign_advice(&mut lay, config.advice, 0, Some(Felt::from_u64(3)))
        .expect("assign");
    // rows 1 and 2 untouched, yet the multiplication gate is enabled at row 0
    config
        .q_mul_enable
        .enable(&mut region, &mut lay, 0)
        .expect("enable");
    lay.commit_region(region);
    let result = MockProver::evaluate(&lay);
    assert_eq!(result, Err(Error::MissingAssignment));
}

#[test]
fn equality_declared_after_gate_use_is_rejected() {
    let mut cs = ConstraintSystem::new();
    let q = cs.selector();
    let col = cs.advice_column();
    let expr = plonk_mock::system::Expression::Query(col, 0);
    let result = cs.create_gate(String::from("probe"), q, vec![expr]);
    assert!(result.is_ok());
    let late = cs.enable_equality(col);
    assert_eq!(late, Err(Error::EqualityAfterUse));
}

#[test]
fn gate_on_unregistered_column_is_rejected() {
    let mut cs = ConstraintSystem::new();
    let q = cs.selector();
    let ghost_col = plonk_mock::system::Column {
        kind: plonk_mock::system::ColKind::Advice,
        index: 7,
    };
    let expr = plonk_mock::system::Expression::Query(ghost_col, 0);
    let result = cs.create_gate(String::from("probe"), q, vec![expr]);
    assert_eq!(result, Err(Error::UnregisteredColumn));
}

#[test]
fn unassigned_fixed_cell_defaults_to_zero() {
    // the fixed-check gate compares advice against the fixed column; with
    // the fixed cell never assigned it reads zero
    let (mut lay, config) = configured_layouter(4);
    let mut region = lay.begin_region();
    region
        .assign_advice(&mut lay, config.advice, 0, Some(Felt::zero()))
        .expect("assign");
    config
        .q_fixed_enable
        .enable(&mut region, &mut lay, 0)
        .expect("enable");
    lay.commit_region(region);
    let report = MockProver::evaluate(&lay).expect("evaluate");
    assert!(report.ok);
}

#[test]
fn field_elements_compare_by_value() {
    assert!(Felt::from_u64(42).equals(&Felt::from_u128(42)));
    assert!(!Felt::from_u64(42).equals(&Felt::from_u64(43)));
    assert!(Felt::zero().is_zero());
    assert!(!Felt::one().is_zero());
    assert!(Felt::from_u64(0).equals(&Felt::zero()));
    assert!(Felt::from_u64(1).equals(&Felt::one()));
}

#[test]
fn equality_on_unregistered_column_is_rejected() {
    let mut cs = ConstraintSystem::new();
    let _col = cs.advice_column();
    let ghost_col = plonk_mock::system::Column {
        kind: plonk_mock::system::ColKind::Advice,
        index: 7,
    };
    let result = cs.enable_equality(ghost_col);
    assert_eq!(result, Err(Error::UnregisteredColumn));
}

#[test]
fn configure_is_deterministic() {
    let mut cs1 = ConstraintSystem::new();
    let config1 = MulCircuit::configure(&mut cs1).expect("first configure");
    let mut cs2 = ConstraintSystem::new();
    let config2 = MulCircuit::configure(&mut cs2).expect("second configure");
    assert_eq!(config1, config2);
    assert_eq!(cs1, cs2);
}
