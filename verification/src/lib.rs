//! Storage bookkeeping (shapes, strides, owned buffers), generic dense and
//! sparse kernels, and the plain data types shared by the solver layer.
use vstd::prelude::*;

pub mod arith;
pub mod buffer;
pub mod decomp;
pub mod dtype;
pub mod error;
pub mod integer_laws;
pub mod ffi;
pub mod iterative;
pub mod kernels;
pub mod layout;
pub mod optimize;
pub mod shape;
pub mod sparse;

pub use buffer::Buffer;
pub use dtype::DType;
pub use error::CoreError;
pub use layout::{Layout, Order};
pub use shape::Shape;
pub use sparse::{CsrMatrix, SparseError};
