use vstd::prelude::*;

use crate::sparse::{CsrMatrix, SparseError};

verus! {

/// Why a sparse weighted or penalized least-squares iteration refused its
/// inputs.
#[derive(Debug)]
pub enum StatisticalSolveError {
    /// Response and weights must each have one entry per design row.
    ObservationLength { rows: usize, cols: usize },
    /// The penalty operator must have one column per design coefficient.
    PenaltyWidth { actual: usize, expected: usize },
    /// The penalty weight must be finite and strictly positive.
    InvalidPenaltyWeight,
    /// The iteration cap must be positive and the tolerance finite and
    /// positive.
    InvalidConvergenceSettings,
    /// Response, weights, design and penalty entries must be finite, and
    /// weights non-negative.
    InvalidNumericInput,
    Sparse(SparseError),
}

/// The shape check that opens a least-squares solve: the response and the
/// weights must each have one entry per design row.
pub fn check_observation_lengths<T>(
    design: &CsrMatrix<T>,
    response_len: usize,
    weights_len: usize,
) -> (r: Result<(), StatisticalSolveError>)
    ensures
        match r {
            Ok(()) => response_len == design.spec_rows() && weights_len == design.spec_rows(),
            Err(e) => {
                &&& (response_len != design.spec_rows() || weights_len != design.spec_rows())
                &&& e == StatisticalSolveError::ObservationLength {
                    rows: design.spec_rows(),
                    cols: design.spec_cols(),
                }
            },
        },
{
    if response_len != design.rows() || weights_len != design.rows() {
        return Err(
            StatisticalSolveError::ObservationLength { rows: design.rows(), cols: design.cols() },
        );
    }
    Ok(())
}

/// The shape check of a penalized solve: the penalty operator must have one
/// column per design coefficient.
pub fn check_penalty_width<T>(design: &CsrMatrix<T>, penalty: &CsrMatrix<T>) -> (r: Result<
    (),
    StatisticalSolveError,
>)
    ensures
        match r {
            Ok(()) => penalty.spec_cols() == design.spec_cols(),
            Err(e) => {
                &&& penalty.spec_cols() != design.spec_cols()
                &&& e == StatisticalSolveError::PenaltyWidth {
                    actual: penalty.spec_cols(),
                    expected: design.spec_cols(),
                }
            },
        },
{
    if penalty.cols() != design.cols() {
        return Err(
            StatisticalSolveError::PenaltyWidth { actual: penalty.cols(), expected: design.cols() },
        );
    }
    Ok(())
}

} // verus!
