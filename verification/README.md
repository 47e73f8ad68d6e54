# numeric_core

Storage bookkeeping, generic kernels and sparse matrices of a numerics
stack, verified with Verus; the floating-point solvers and the Swift (UniFFI)
surface built on them live in `app/`.

## src/ (verified)

- `shape`, `layout`, `buffer`, `dtype`, `error`: shapes, contiguous
  row-/column-major strides, owned strided buffers. `layout` proves that the
  offset of a contiguous layout is a bijection between in-bounds indices and
  `0 .. element_count`; `buffer` proves what a read returns after a write.
- `arith`: how a generic multiply-accumulate is described: the sequence of
  `+`/`*` calls on the element type, the condition that each call is defined
  (for integer types: no overflow), and the closed form for element types
  whose operators follow their specification, the integer types among them.
- `kernels`: column-major `matmul`, `axpy`, `dot`, `norm2`.
- `sparse`: CSR construction with full validation, `spmv`,
  `transpose_spmv`, `entries`.
- `optimize`, `iterative`, `decomp`, `ffi`: the plain data types of the
  solver layer and of the FFI surface.

## app/ (ordinary Rust)

Dense Cholesky solve, CG / CGLS least squares, revised simplex, interior
point, branch-and-bound, the UniFFI exports, and `thiserror` copies of the
error types.
