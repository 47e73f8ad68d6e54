use vstd::prelude::*;

use crate::shape::Shape;

verus! {

/// Errors of the storage layer. Kept small and FFI-friendly.
#[derive(Debug)]
pub enum CoreError {
    ShapeMismatch { expected: Shape, actual: Shape },
    IndexOutOfBounds { index: Vec<usize>, shape: Shape },
    BufferLengthMismatch { shape: Shape, expected: usize, actual: usize },
}

} // verus!
