use numeric_core::kernels::{axpy, dot, matmul, norm2, Scalar};

#[test]
fn matmul_identity() {
    // 2x2 identity times [1,2,3,4] (column-major) == itself.
    let identity = [1.0, 0.0, 0.0, 1.0];
    let a = [1.0, 2.0, 3.0, 4.0];
    let mut c = [0.0; 4];
    matmul(&identity, &a, &mut c, 2, 2, 2);
    assert_eq!(c, a);
}

#[test]
fn dot_matches_hand_computation() {
    assert_eq!(dot(&[1.0, 2.0, 3.0], &[4.0, 5.0, 6.0]), 32.0);
}

/// `f64` seen through the library's `Scalar` trait.
#[derive(Debug, Clone, Copy, Default, PartialEq)]
struct F64(f64);

impl std::ops::Add for F64 {
    type Output = F64;
    fn add(self, other: F64) -> F64 {
        F64(self.0 + other.0)
    }
}

impl std::ops::Mul for F64 {
    type Output = F64;
    fn mul(self, other: F64) -> F64 {
        F64(self.0 * other.0)
    }
}

impl Scalar for F64 {
    fn sqrt(self) -> F64 {
        F64(self.0.sqrt())
    }
}

#[test]
fn norm2_matches_hand_computation() {
    assert_eq!(norm2(&[F64(3.0), F64(4.0)]), F64(5.0));
}

#[test]
fn axpy_updates_in_place() {
    let x = [1.0, 1.0, 1.0];
    let mut y = [1.0, 2.0, 3.0];
    axpy(2.0, &x, &mut y);
    assert_eq!(y, [3.0, 4.0, 5.0]);
}

#[test]
fn matmul_non_square_column_major() {
    // a = [[1, 2, 3], [4, 5, 6]] (2x3), b = [[1, 0], [0, 1], [1, 1]] (3x2)
    let a = [1, 4, 2, 5, 3, 6];
    let b = [1, 0, 1, 0, 1, 1];
    let mut c = [99; 4];
    matmul(&a, &b, &mut c, 2, 3, 2);
    // a * b = [[4, 5], [10, 11]]
    assert_eq!(c, [4, 10, 5, 11]);
}

#[test]
fn matmul_with_empty_inner_dimension_gives_defaults() {
    let mut c = [7.0; 4];
    matmul::<f64>(&[], &[], &mut c, 2, 0, 2);
    assert_eq!(c, [0.0; 4]);
}

#[test]
fn dot_of_empty_vectors_is_default() {
    assert_eq!(dot::<f64>(&[], &[]), 0.0);
}

#[test]
fn axpy_with_integers() {
    let mut y = [10, 20];
    axpy(3, &[1, 2], &mut y);
    assert_eq!(y, [13, 26]);
}
