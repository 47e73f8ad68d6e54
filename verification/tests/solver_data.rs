use numeric_core::ffi::FfiSolveStatus;
use numeric_core::optimize::SolveStatus;

#[test]
fn solve_status_maps_to_the_same_ffi_variant() {
    assert_eq!(FfiSolveStatus::from(SolveStatus::Optimal), FfiSolveStatus::Optimal);
    assert_eq!(FfiSolveStatus::from(SolveStatus::Infeasible), FfiSolveStatus::Infeasible);
    assert_eq!(FfiSolveStatus::from(SolveStatus::Unbounded), FfiSolveStatus::Unbounded);
    assert_eq!(FfiSolveStatus::from(SolveStatus::IterationLimit), FfiSolveStatus::IterationLimit);
}

use numeric_core::iterative::{check_observation_lengths, check_penalty_width, StatisticalSolveError};
use numeric_core::CsrMatrix;

#[test]
fn observation_lengths_must_match_the_design_rows() {
    let design = CsrMatrix::new(2, 2, vec![0, 1, 3], vec![0, 0, 1], vec![1.0, 1.0, 1.0]).unwrap();
    assert!(check_observation_lengths(&design, 2, 2).is_ok());
    assert!(matches!(
        check_observation_lengths(&design, 1, 2),
        Err(StatisticalSolveError::ObservationLength { rows: 2, cols: 2 })
    ));
    assert!(matches!(
        check_observation_lengths(&design, 2, 3),
        Err(StatisticalSolveError::ObservationLength { rows: 2, cols: 2 })
    ));
}

#[test]
fn penalty_width_must_match_the_design_columns() {
    let design = CsrMatrix::new(2, 2, vec![0, 1, 3], vec![0, 0, 1], vec![1.0, 1.0, 1.0]).unwrap();
    let bad = CsrMatrix::new(1, 1, vec![0, 1], vec![0], vec![1.0]).unwrap();
    let good = CsrMatrix::new(2, 2, vec![0, 1, 2], vec![0, 1], vec![1.0, 1.0]).unwrap();
    assert!(check_penalty_width(&design, &good).is_ok());
    assert!(matches!(
        check_penalty_width(&design, &bad),
        Err(StatisticalSolveError::PenaltyWidth { actual: 1, expected: 2 })
    ));
}
