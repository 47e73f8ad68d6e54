use numeric_core::{CsrMatrix, SparseError};

/// [[1, 0, 2],
///  [0, 3, 0]]
fn sample() -> CsrMatrix<f64> {
    CsrMatrix::new(2, 3, vec![0, 2, 3], vec![0, 2, 1], vec![1.0, 2.0, 3.0]).unwrap()
}

#[test]
fn spmv_matches_hand_computation() {
    let m = sample();
    let y = m.spmv(&[1.0, 1.0, 1.0]).unwrap();
    assert_eq!(y, vec![3.0, 3.0]);
}

#[test]
fn rejects_bad_row_ptr() {
    assert!(CsrMatrix::<f64>::new(2, 3, vec![0, 2], vec![0], vec![1.0]).is_err());
}

#[test]
fn spmv_rejects_dimension_mismatch() {
    let m = sample();
    assert!(m.spmv(&[1.0, 1.0]).is_err());
}

#[test]
fn new_reports_each_kind_of_malformed_input() {
    assert!(matches!(
        CsrMatrix::<f64>::new(2, 3, vec![0, 2], vec![0], vec![1.0]),
        Err(SparseError::RowPtrLength { expected: 3, actual: 2 })
    ));
    assert!(matches!(
        CsrMatrix::<f64>::new(1, 3, vec![0, 1], vec![0, 1], vec![1.0]),
        Err(SparseError::ColValuesMismatch { col_indices: 2, values: 1 })
    ));
    assert!(matches!(
        CsrMatrix::<f64>::new(2, 3, vec![1, 1, 1], vec![0], vec![1.0]),
        Err(SparseError::InvalidRowPtr { position: 0 })
    ));
    assert!(matches!(
        CsrMatrix::<f64>::new(2, 3, vec![0, 2, 1], vec![0, 1], vec![1.0, 2.0]),
        Err(SparseError::InvalidRowPtr { position: 2 })
    ));
    assert!(matches!(
        CsrMatrix::<f64>::new(2, 3, vec![0, 1, 1], vec![0, 1], vec![1.0, 2.0]),
        Err(SparseError::InvalidRowPtr { position: 2 })
    ));
    assert!(matches!(
        CsrMatrix::<f64>::new(2, 3, vec![0, 1, 2], vec![0, 5], vec![1.0, 2.0]),
        Err(SparseError::ColumnOutOfBounds { index: 5, cols: 3 })
    ));
}

#[test]
fn accessors_report_the_construction() {
    let m = sample();
    assert_eq!(m.rows(), 2);
    assert_eq!(m.cols(), 3);
    assert_eq!(m.nnz(), 3);
}

#[test]
fn transpose_spmv_matches_hand_computation() {
    let m = sample();
    // A^T [1, 2] = [1, 6, 2]
    assert_eq!(m.transpose_spmv(&[1.0, 2.0]).unwrap(), vec![1.0, 6.0, 2.0]);
    assert!(matches!(
        m.transpose_spmv(&[1.0, 2.0, 3.0]),
        Err(SparseError::DimensionMismatch { rows: 2, cols: 3, vec_len: 3 })
    ));
}

#[test]
fn spmv_and_transpose_are_adjoint_on_integers() {
    let m = CsrMatrix::new(2, 3, vec![0, 2, 3], vec![0, 2, 1], vec![1i64, 2, 3]).unwrap();
    let x = [4i64, 5, 6];
    let y = [7i64, 8];
    let ax = m.spmv(&x).unwrap();
    let aty = m.transpose_spmv(&y).unwrap();
    let lhs: i64 = ax.iter().zip(&y).map(|(a, b)| a * b).sum();
    let rhs: i64 = aty.iter().zip(&x).map(|(a, b)| a * b).sum();
    assert_eq!(lhs, rhs);
}

#[test]
fn entries_list_every_stored_value_with_its_row() {
    let m = sample();
    assert_eq!(m.entries(), vec![(0, 0, 1.0), (0, 2, 2.0), (1, 1, 3.0)]);
}

#[test]
fn empty_rows_produce_default_values() {
    let m = CsrMatrix::new(3, 2, vec![0, 0, 1, 1], vec![1], vec![5.0]).unwrap();
    assert_eq!(m.spmv(&[1.0, 2.0]).unwrap(), vec![0.0, 10.0, 0.0]);
}

#[test]
fn column_bounds_are_checked_before_the_row_pointer() {
    assert!(matches!(
        CsrMatrix::<f64>::new(2, 3, vec![1, 0, 2], vec![0, 7], vec![1.0, 2.0]),
        Err(SparseError::ColumnOutOfBounds { index: 7, cols: 3 })
    ));
}

#[test]
fn clone_keeps_structure_and_values() {
    let m = sample();
    let c = m.clone();
    assert_eq!(c.rows(), 2);
    assert_eq!(c.cols(), 3);
    assert_eq!(c.entries(), m.entries());
}
