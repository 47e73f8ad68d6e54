//! Compressed Sparse Row matrices and their products with dense vectors.
//!
//! CSR is the one sparse format of the library: shared by general sparse
//! linear algebra, graph adjacency matrices and optimization constraint
//! matrices (`A` in `Ax {<=,=,>=} b`).
use vstd::prelude::*;

use crate::arith::{dot_defined, dot_run, is_dot, mul_add_defined, mul_add_step};

verus! {

#[derive(Debug, Clone, Copy, PartialEq, Eq)]
pub enum SparseError {
    RowPtrLength { expected: usize, actual: usize },
    ColValuesMismatch { col_indices: usize, values: usize },
    /// `row_ptr[position]` breaks the prefix-sum invariant: the first entry
    /// must be 0, entries must not decrease, none may exceed the number of
    /// stored values, and the last one must equal it.
    InvalidRowPtr { position: usize },
    ColumnOutOfBounds { index: usize, cols: usize },
    DimensionMismatch { rows: usize, cols: usize, vec_len: usize },
}

/// Entry `p` of `row_ptr` is consistent with a prefix-sum array over
/// `nnz` stored values.
pub open spec fn row_ptr_entry_ok(row_ptr: Seq<usize>, nnz: nat, p: int) -> bool {
    &&& p == 0 ==> row_ptr[0] == 0
    &&& p > 0 ==> row_ptr[p - 1] <= row_ptr[p]
    &&& row_ptr[p] <= nnz
    &&& p == row_ptr.len() - 1 ==> row_ptr[p] == nnz
}

/// `row_ptr` starts at zero, never decreases, and ends at `nnz`.
pub open spec fn row_ptr_valid(row_ptr: Seq<usize>, nnz: nat) -> bool {
    forall|p: int| 0 <= p < row_ptr.len() ==> #[trigger] row_ptr_entry_ok(row_ptr, nnz, p)
}

/// `p` is the first entry of `row_ptr` that breaks the invariant.
pub open spec fn first_bad_row_ptr(row_ptr: Seq<usize>, nnz: nat, p: int) -> bool {
    &&& 0 <= p < row_ptr.len()
    &&& !row_ptr_entry_ok(row_ptr, nnz, p)
    &&& forall|q: int| 0 <= q < p ==> #[trigger] row_ptr_entry_ok(row_ptr, nnz, q)
}

/// Every stored column index is below `cols`.
pub open spec fn columns_in_bounds(col_indices: Seq<usize>, cols: usize) -> bool {
    forall|k: int| 0 <= k < col_indices.len() ==> #[trigger] col_indices[k] < cols
}

/// `k` is the first stored column index that is out of bounds.
pub open spec fn first_bad_column(col_indices: Seq<usize>, cols: usize, k: int) -> bool {
    &&& 0 <= k < col_indices.len()
    &&& col_indices[k] >= cols
    &&& forall|q: int| 0 <= q < k ==> #[trigger] col_indices[q] < cols
}

/// The three arrays form a valid `rows x cols` CSR matrix.
pub open spec fn csr_valid(
    rows: usize,
    cols: usize,
    row_ptr: Seq<usize>,
    col_indices: Seq<usize>,
    nnz: nat,
) -> bool {
    &&& row_ptr.len() == rows + 1
    &&& col_indices.len() == nnz
    &&& row_ptr_valid(row_ptr, nnz)
    &&& columns_in_bounds(col_indices, cols)
}

/// What a CSR matrix is, written out directly: `row_ptr` has `rows + 1`
/// entries, starts at 0, ends at `nnz` and never decreases between any two
/// positions (equal neighbours are empty rows); `col_indices` has `nnz`
/// entries, each below `cols`.
pub open spec fn csr_accepts(
    rows: nat,
    cols: nat,
    row_ptr: Seq<usize>,
    col_indices: Seq<usize>,
    nnz: nat,
) -> bool {
    &&& row_ptr.len() == rows + 1
    &&& col_indices.len() == nnz
    &&& row_ptr[0] == 0
    &&& row_ptr[rows as int] == nnz
    &&& forall|p: int, q: int|
        #![trigger row_ptr[p], row_ptr[q]]
        0 <= p <= q <= rows ==> row_ptr[p] <= row_ptr[q]
    &&& forall|k: int| 0 <= k < nnz ==> #[trigger] col_indices[k] < cols
}

/// A valid row pointer never decreases between any two positions.
pub proof fn lemma_row_ptr_monotone(row_ptr: Seq<usize>, nnz: nat, p: int, q: int)
    requires
        row_ptr_valid(row_ptr, nnz),
        0 <= p <= q < row_ptr.len(),
    ensures
        row_ptr[p] <= row_ptr[q] <= nnz,
    decreases q - p,
{
    assert(row_ptr_entry_ok(row_ptr, nnz, q));
    if p < q {
        lemma_row_ptr_monotone(row_ptr, nnz, p, q - 1);
    }
}

/// Compressed Sparse Row matrix.
///
/// Standard three-array CSR: `row_ptr` has `rows + 1` entries, and
/// `col_indices` / `values` are parallel arrays of length `nnz`; the entries
/// of row `r` are stored at positions `row_ptr[r] .. row_ptr[r + 1]`.
#[derive(Debug)]
pub struct CsrMatrix<T> {
    rows: usize,
    cols: usize,
    row_ptr: Vec<usize>,
    col_indices: Vec<usize>,
    values: Vec<T>,
}

impl<T: Clone> Clone for CsrMatrix<T> {
    /// Same dimensions and structure; every stored value is a clone of the
    /// corresponding one.
    fn clone(&self) -> (m: Self)
        ensures
            m.spec_rows() == self.spec_rows(),
            m.spec_cols() == self.spec_cols(),
            m.spec_row_ptr() == self.spec_row_ptr(),
            m.spec_col_indices() == self.spec_col_indices(),
            m.spec_values().len() == self.spec_values().len(),
            self.wf() ==> m.wf(),
            forall|k: int|
                0 <= k < self.spec_values().len() ==> cloned(
                    self.spec_values()[k],
                    #[trigger] m.spec_values()[k],
                ),
    {
        let row_ptr = self.row_ptr.clone();
        let col_indices = self.col_indices.clone();
        proof {
            assert(row_ptr@ =~= self.row_ptr@);
            assert(col_indices@ =~= self.col_indices@);
        }
        CsrMatrix {
            rows: self.rows,
            cols: self.cols,
            row_ptr,
            col_indices,
            values: self.values.clone(),
        }
    }
}

impl<T> CsrMatrix<T> {
    pub closed spec fn spec_rows(&self) -> usize {
        self.rows
    }

    pub closed spec fn spec_cols(&self) -> usize {
        self.cols
    }

    pub closed spec fn spec_row_ptr(&self) -> Seq<usize> {
        self.row_ptr@
    }

    pub closed spec fn spec_col_indices(&self) -> Seq<usize> {
        self.col_indices@
    }

    pub closed spec fn spec_values(&self) -> Seq<T> {
        self.values@
    }

    pub open spec fn wf(&self) -> bool {
        &&& csr_valid(
            self.spec_rows(),
            self.spec_cols(),
            self.spec_row_ptr(),
            self.spec_col_indices(),
            self.spec_values().len(),
        )
    }

    /// Stored values of row `r`, in storage order.
    pub open spec fn row_values(&self, r: int) -> Seq<T> {
        self.spec_values().subrange(self.spec_row_ptr()[r] as int, self.spec_row_ptr()[r + 1] as int)
    }

    /// The entries of `x` that row `r`'s stored values multiply, in
    /// storage order.
    pub open spec fn row_gather(&self, r: int, x: Seq<T>) -> Seq<T> {
        let start = self.spec_row_ptr()[r] as int;
        Seq::new(
            (self.spec_row_ptr()[r + 1] - start) as nat,
            |q: int| x[self.spec_col_indices()[start + q] as int],
        )
    }

    pub fn rows(&self) -> (r: usize)
        ensures
            r == self.spec_rows(),
    {
        self.rows
    }

    pub fn cols(&self) -> (c: usize)
        ensures
            c == self.spec_cols(),
    {
        self.cols
    }

    /// Number of stored entries.
    pub fn nnz(&self) -> (n: usize)
        ensures
            n == self.spec_values().len(),
    {
        self.values.len()
    }

    /// The row that stored position `k` belongs to.
    pub open spec fn entry_row(&self, k: int, r: int) -> bool {
        &&& 0 <= r < self.spec_rows()
        &&& self.spec_row_ptr()[r] <= k < self.spec_row_ptr()[r + 1]
    }
}

impl<T: Copy + Default + core::ops::Add<Output = T> + core::ops::Mul<Output = T>> CsrMatrix<T> {
    /// Builds a CSR matrix, refusing arrays that do not form one. The checks
    /// run in this order: the length of `row_ptr`, the lengths of
    /// `col_indices` against `values`, the column bounds, and the
    /// prefix-sum invariant of `row_ptr`.
    pub fn new(
        rows: usize,
        cols: usize,
        row_ptr: Vec<usize>,
        col_indices: Vec<usize>,
        values: Vec<T>,
    ) -> (r: Result<Self, SparseError>)
        requires
            rows < usize::MAX,
        ensures
            match r {
                Ok(mat) => {
                    &&& csr_valid(rows, cols, row_ptr@, col_indices@, values@.len())
                    &&& mat.wf()
                    &&& mat.spec_rows() == rows
                    &&& mat.spec_cols() == cols
                    &&& mat.spec_row_ptr() == row_ptr@
                    &&& mat.spec_col_indices() == col_indices@
                    &&& mat.spec_values() == values@
                },
                Err(SparseError::RowPtrLength { expected, actual }) => {
                    &&& row_ptr@.len() != rows + 1
                    &&& expected == rows + 1
                    &&& actual == row_ptr@.len()
                },
                Err(SparseError::ColValuesMismatch { col_indices: c, values: v }) => {
                    &&& row_ptr@.len() == rows + 1
                    &&& col_indices@.len() != values@.len()
                    &&& c == col_indices@.len()
                    &&& v == values@.len()
                },
                Err(SparseError::InvalidRowPtr { position }) => {
                    &&& row_ptr@.len() == rows + 1
                    &&& col_indices@.len() == values@.len()
                    &&& columns_in_bounds(col_indices@, cols)
                    &&& first_bad_row_ptr(row_ptr@, values@.len(), position as int)
                },
                Err(SparseError::ColumnOutOfBounds { index, cols: c }) => {
                    &&& row_ptr@.len() == rows + 1
                    &&& col_indices@.len() == values@.len()
                    &&& exists|k: int|
                        #[trigger] first_bad_column(col_indices@, cols, k) && col_indices@[k]
                            == index
                    &&& c == cols
                },
                Err(SparseError::DimensionMismatch { .. }) => false,
            },
    {
        if row_ptr.len() != rows + 1 {
            return Err(SparseError::RowPtrLength { expected: rows + 1, actual: row_ptr.len() });
        }
        if col_indices.len() != values.len() {
            return Err(
                SparseError::ColValuesMismatch {
                    col_indices: col_indices.len(),
                    values: values.len(),
                },
            );
        }
        let mut k: usize = 0;
        while k < col_indices.len()
            invariant
                k <= col_indices@.len(),
                row_ptr@.len() == rows + 1,
                col_indices@.len() == values@.len(),
                forall|q: int| 0 <= q < k ==> #[trigger] col_indices@[q] < cols,
            decreases col_indices@.len() - k,
        {
            let c = col_indices[k];
            if c >= cols {
                assert(first_bad_column(col_indices@, cols, k as int));
                return Err(SparseError::ColumnOutOfBounds { index: c, cols });
            }
            k = k + 1;
        }
        let nnz = values.len();
        let mut p: usize = 0;
        while p <= rows
            invariant
                row_ptr@.len() == rows + 1,
                rows < usize::MAX,
                nnz == values@.len(),
                col_indices@.len() == values@.len(),
                columns_in_bounds(col_indices@, cols),
                p <= rows + 1,
                forall|q: int| 0 <= q < p ==> #[trigger] row_ptr_entry_ok(row_ptr@, nnz as nat, q),
            decreases rows + 1 - p,
        {
            let v = row_ptr[p];
            let ok = (p > 0 || v == 0) && (p == 0 || row_ptr[p - 1] <= v) && v <= nnz && (p < rows
                || v == nnz);
            if !ok {
                assert(!row_ptr_entry_ok(row_ptr@, nnz as nat, p as int));
                assert(first_bad_row_ptr(row_ptr@, values@.len(), p as int));
                return Err(SparseError::InvalidRowPtr { position: p });
            }
            p = p + 1;
        }
        Ok(CsrMatrix { rows, cols, row_ptr, col_indices, values })
    }
}

/// `next` is `cur` with position `c` replaced by what `cur[c] + v * w`
/// evaluates to.
pub open spec fn scatter_step<T: core::ops::Add<Output = T> + core::ops::Mul<Output = T>>(
    cur: Seq<T>,
    next: Seq<T>,
    c: int,
    v: T,
    w: T,
) -> bool {
    &&& next.len() == cur.len()
    &&& 0 <= c < cur.len()
    &&& forall|q: int| 0 <= q < cur.len() && q != c ==> #[trigger] next[q] == cur[q]
    &&& mul_add_step(cur[c], v, w, next[c])
}

impl<T: Copy + Default + core::ops::Add<Output = T> + core::ops::Mul<Output = T>> CsrMatrix<T> {
    /// `states` records the first `k` steps of `A^T x` accumulated entry by
    /// entry in storage order: it starts from one `T::default()` value per
    /// column, and each stored entry `(r, c, v)` adds `v * x[r]` onto
    /// position `c`.
    pub open spec fn transpose_prefix(&self, x: Seq<T>, states: Seq<Seq<T>>, k: int) -> bool {
        &&& states.len() == k + 1
        &&& states[0].len() == self.spec_cols()
        &&& forall|c: int|
            0 <= c < self.spec_cols() ==> #[trigger] call_ensures(T::default, (), states[0][c])
        &&& forall|q: int, r: int|
            0 <= q < k && #[trigger] self.entry_row(q, r) ==> scatter_step(
                states[q],
                states[q + 1],
                self.spec_col_indices()[q] as int,
                self.spec_values()[q],
                x[r],
            )
    }

    /// `states` records `A^T x` over all stored entries.
    pub open spec fn transpose_run(&self, x: Seq<T>, states: Seq<Seq<T>>) -> bool {
        self.transpose_prefix(x, states, self.spec_values().len() as int)
    }

    /// Every step of the accumulation of `A^T x` can be taken (for integer
    /// types: no intermediate value overflows).
    pub open spec fn transpose_defined(&self, x: Seq<T>) -> bool {
        forall|k: int, r: int, states: Seq<Seq<T>>|
            0 <= k < self.spec_values().len() && #[trigger] self.entry_row(k, r)
                && #[trigger] self.transpose_prefix(x, states, k) ==> mul_add_defined(
                states[k][self.spec_col_indices()[k] as int],
                self.spec_values()[k],
                x[r],
            )
    }

    /// Every step of every row's accumulation in `A * x` can be taken (for
    /// integer types: no intermediate value overflows).
    pub open spec fn spmv_defined(&self, x: Seq<T>) -> bool {
        forall|r: int|
            0 <= r < self.spec_rows() ==> #[trigger] dot_defined(
                self.row_values(r),
                self.row_gather(r, x),
            )
    }

    /// Sparse matrix-vector product `y = A * x`; row `r` of the result
    /// accumulates the products of row `r`'s stored values with the matching
    /// entries of `x`, in storage order, onto `T::default()`.
    pub fn spmv(&self, x: &[T]) -> (res: Result<Vec<T>, SparseError>)
        requires
            self.wf(),
            x@.len() == self.spec_cols() ==> self.spmv_defined(x@),
        ensures
            match res {
                Ok(y) => {
                    &&& x@.len() == self.spec_cols()
                    &&& y@.len() == self.spec_rows()
                    &&& forall|r: int|
                        0 <= r < self.spec_rows() ==> is_dot(
                            self.row_values(r),
                            self.row_gather(r, x@),
                            #[trigger] y@[r],
                        )
                },
                Err(e) => {
                    &&& x@.len() != self.spec_cols()
                    &&& e == SparseError::DimensionMismatch {
                        rows: self.spec_rows(),
                        cols: self.spec_cols(),
                        vec_len: x@.len() as usize,
                    }
                },
            },
    {
        if x.len() != self.cols {
            return Err(
                SparseError::DimensionMismatch {
                    rows: self.rows,
                    cols: self.cols,
                    vec_len: x.len(),
                },
            );
        }
        let nnz = self.values.len();
        let mut y: Vec<T> = Vec::new();
        let mut row: usize = 0;
        while row < self.rows
            invariant
                self.wf(),
                self.spmv_defined(x@),
                x@.len() == self.spec_cols(),
                nnz == self.values@.len(),
                row <= self.rows,
                y@.len() == row,
                forall|r: int|
                    0 <= r < row ==> is_dot(
                        self.row_values(r),
                        self.row_gather(r, x@),
                        #[trigger] y@[r],
                    ),
            decreases self.rows - row,
        {
            proof {
                lemma_row_ptr_monotone(self.row_ptr@, nnz as nat, row as int, row + 1);
            }
            let start = self.row_ptr[row];
            let end = self.row_ptr[row + 1];
            let ghost vals = self.row_values(row as int);
            let ghost gathered = self.row_gather(row as int, x@);
            proof {
                assert(dot_defined(vals, gathered));
            }
            let mut acc = T::default();
            let ghost mut accs: Seq<T> = seq![acc];
            let mut idx: usize = start;
            while idx < end
                invariant
                    self.wf(),
                    dot_defined(vals, gathered),
                    x@.len() == self.spec_cols(),
                    nnz == self.values@.len(),
                    row < self.rows,
                    start == self.row_ptr@[row as int],
                    end == self.row_ptr@[row + 1],
                    start <= idx <= end <= nnz,
                    vals == self.row_values(row as int),
                    gathered == self.row_gather(row as int, x@),
                    dot_run(vals.take(idx - start), gathered.take(idx - start), accs),
                    accs.last() == acc,
                decreases end - idx,
            {
                let c = self.col_indices[idx];
                proof {
                    assert(c < self.cols);
                }
                proof {
                    let q = idx - start;
                    assert(vals[q] == self.values@[idx as int]);
                    assert(gathered[q] == x@[c as int]);
                    assert(mul_add_defined(accs.last(), vals[q], gathered[q]));
                }
                let p = self.values[idx] * x[c];
                proof {
                    assert(call_ensures(
                        <T as core::ops::Mul>::mul,
                        (self.values@[idx as int], x@[c as int]),
                        p,
                    ));
                }
                let next = acc + p;
                proof {
                    let q = idx - start;
                    assert(vals[q] == self.values@[idx as int]);
                    assert(gathered[q] == x@[c as int]);
                    assert(call_ensures(
                        <T as core::ops::Mul>::mul,
                        (self.values@[idx as int], x@[c as int]),
                        p,
                    ));
                    assert(mul_add_step(acc, vals[q], gathered[q], next));
                    let old_accs = accs;
                    accs = accs.push(next);
                    assert forall|j: int| 0 <= j < q + 1 implies #[trigger] mul_add_step(
                        accs[j],
                        vals.take(q + 1)[j],
                        gathered.take(q + 1)[j],
                        accs[j + 1],
                    ) by {
                        if j < q {
                            assert(mul_add_step(
                                old_accs[j],
                                vals.take(q)[j],
                                gathered.take(q)[j],
                                old_accs[j + 1],
                            ));
                        }
                    }
                }
                acc = next;
                idx = idx + 1;
            }
            proof {
                assert(vals.take(end - start) =~= vals);
                assert(gathered.take(end - start) =~= gathered);
            }
            y.push(acc);
            row = row + 1;
        }
        Ok(y)
    }

    /// Transposed product `y = A^T * x`, accumulated directly over the
    /// stored entries without materializing the transpose.
    pub fn transpose_spmv(&self, x: &[T]) -> (res: Result<Vec<T>, SparseError>)
        requires
            self.wf(),
            x@.len() == self.spec_rows() ==> self.transpose_defined(x@),
        ensures
            match res {
                Ok(y) => {
                    &&& x@.len() == self.spec_rows()
                    &&& y@.len() == self.spec_cols()
                    &&& exists|states: Seq<Seq<T>>|
                        #[trigger] self.transpose_run(x@, states) && states.last() == y@
                },
                Err(e) => {
                    &&& x@.len() != self.spec_rows()
                    &&& e == SparseError::DimensionMismatch {
                        rows: self.spec_rows(),
                        cols: self.spec_cols(),
                        vec_len: x@.len() as usize,
                    }
                },
            },
    {
        if x.len() != self.rows {
            return Err(
                SparseError::DimensionMismatch {
                    rows: self.rows,
                    cols: self.cols,
                    vec_len: x.len(),
                },
            );
        }
        let nnz = self.values.len();
        let mut y: Vec<T> = Vec::new();
        let mut c: usize = 0;
        while c < self.cols
            invariant
                c <= self.cols,
                y@.len() == c,
                forall|q: int| 0 <= q < c ==> #[trigger] call_ensures(T::default, (), y@[q]),
            decreases self.cols - c,
        {
            let z = T::default();
            y.push(z);
            c = c + 1;
        }
        let ghost mut states: Seq<Seq<T>> = seq![y@];
        let mut row: usize = 0;
        proof {
            assert(self.row_ptr@[0] == 0) by {
                assert(row_ptr_entry_ok(self.row_ptr@, nnz as nat, 0));
            }
        }
        while row < self.rows
            invariant
                self.wf(),
                self.transpose_defined(x@),
                x@.len() == self.spec_rows(),
                nnz == self.values@.len(),
                row <= self.rows,
                y@.len() == self.spec_cols(),
                states.len() == self.row_ptr@[row as int] + 1,
                states.last() == y@,
                states[0].len() == self.spec_cols(),
                forall|q: int|
                    0 <= q < self.spec_cols() ==> #[trigger] call_ensures(T::default, (), states[0][q]),
                forall|k: int, r: int|
                    0 <= k < self.row_ptr@[row as int] && #[trigger] self.entry_row(k, r)
                        ==> scatter_step(
                        states[k],
                        states[k + 1],
                        self.spec_col_indices()[k] as int,
                        self.spec_values()[k],
                        x@[r],
                    ),
            decreases self.rows - row,
        {
            proof {
                lemma_row_ptr_monotone(self.row_ptr@, nnz as nat, row as int, row + 1);
            }
            let start = self.row_ptr[row];
            let end = self.row_ptr[row + 1];
            let xr = x[row];
            let mut idx: usize = start;
            while idx < end
                invariant
                    self.wf(),
                    self.transpose_defined(x@),
                    x@.len() == self.spec_rows(),
                    nnz == self.values@.len(),
                    row < self.rows,
                    xr == x@[row as int],
                    start == self.row_ptr@[row as int],
                    end == self.row_ptr@[row + 1],
                    start <= idx <= end <= nnz,
                    y@.len() == self.spec_cols(),
                    states.len() == idx + 1,
                    states.last() == y@,
                    states[0].len() == self.spec_cols(),
                    forall|q: int|
                        0 <= q < self.spec_cols() ==> #[trigger] call_ensures(
                            T::default,
                            (),
                            states[0][q],
                        ),
                    forall|k: int, r: int|
                        0 <= k < idx && #[trigger] self.entry_row(k, r) ==> scatter_step(
                            states[k],
                            states[k + 1],
                            self.spec_col_indices()[k] as int,
                            self.spec_values()[k],
                            x@[r],
                        ),
                decreases end - idx,
            {
                let col = self.col_indices[idx];
                proof {
                    assert(col < self.cols);
                }
                proof {
                    assert(self.transpose_prefix(x@, states, idx as int));
                    assert(self.entry_row(idx as int, row as int));
                    assert(states[idx as int] == y@);
                    assert(mul_add_defined(
                        states[idx as int][col as int],
                        self.spec_values()[idx as int],
                        x@[row as int],
                    ));
                }
                let p = self.values[idx] * xr;
                proof {
                    assert(call_ensures(
                        <T as core::ops::Mul>::mul,
                        (self.values@[idx as int], xr),
                        p,
                    ));
                }
                let next = y[col] + p;
                proof {
                    assert(call_ensures(
                        <T as core::ops::Mul>::mul,
                        (self.values@[idx as int], xr),
                        p,
                    ));
                    let cur = y@;
                    let new_state = cur.update(col as int, next);
                    assert(scatter_step(cur, new_state, col as int, self.values@[idx as int], xr));
                    let old_states = states;
                    states = states.push(new_state);
                    assert forall|k: int, r: int|
                        0 <= k < idx + 1 && #[trigger] self.entry_row(k, r) implies scatter_step(
                        states[k],
                        states[k + 1],
                        self.spec_col_indices()[k] as int,
                        self.spec_values()[k],
                        x@[r],
                    ) by {
                        if k == idx {
                            // Stored position `idx` lies in row `row` only.
                            if r < row {
                                lemma_row_ptr_monotone(self.row_ptr@, nnz as nat, r + 1, row as int);
                            } else if r > row {
                                lemma_row_ptr_monotone(self.row_ptr@, nnz as nat, row + 1, r);
                            }
                            assert(r == row);
                        } else {
                            assert(old_states[k] == states[k]);
                            assert(old_states[k + 1] == states[k + 1]);
                        }
                    }
                }
                y.set(col, next);
                idx = idx + 1;
            }
            row = row + 1;
        }
        proof {
            assert(self.row_ptr@[self.rows as int] == nnz) by {
                assert(row_ptr_entry_ok(self.row_ptr@, nnz as nat, self.rows as int));
            }
            assert(self.transpose_run(x@, states));
        }
        Ok(y)
    }

    /// Every stored entry as `(row, column, value)`, in storage order.
    pub fn entries(&self) -> (e: Vec<(usize, usize, T)>)
        requires
            self.wf(),
        ensures
            e@.len() == self.spec_values().len(),
            forall|k: int|
                0 <= k < e@.len() ==> {
                    &&& self.entry_row(k, (#[trigger] e@[k]).0 as int)
                    &&& e@[k].1 == self.spec_col_indices()[k]
                    &&& e@[k].2 == self.spec_values()[k]
                },
    {
        let nnz = self.values.len();
        let mut e: Vec<(usize, usize, T)> = Vec::new();
        let mut row: usize = 0;
        proof {
            assert(row_ptr_entry_ok(self.row_ptr@, nnz as nat, 0));
        }
        while row < self.rows
            invariant
                self.wf(),
                nnz == self.values@.len(),
                row <= self.rows,
                e@.len() == self.row_ptr@[row as int],
                forall|k: int|
                    0 <= k < e@.len() ==> {
                        &&& self.entry_row(k, (#[trigger] e@[k]).0 as int)
                        &&& e@[k].1 == self.spec_col_indices()[k]
                        &&& e@[k].2 == self.spec_values()[k]
                    },
            decreases self.rows - row,
        {
            proof {
                lemma_row_ptr_monotone(self.row_ptr@, nnz as nat, row as int, row + 1);
            }
            let start = self.row_ptr[row];
            let end = self.row_ptr[row + 1];
            let mut idx: usize = start;
            while idx < end
                invariant
                    self.wf(),
                    nnz == self.values@.len(),
                    row < self.rows,
                    start == self.row_ptr@[row as int],
                    end == self.row_ptr@[row + 1],
                    start <= idx <= end <= nnz,
                    e@.len() == idx,
                    forall|k: int|
                        0 <= k < e@.len() ==> {
                            &&& self.entry_row(k, (#[trigger] e@[k]).0 as int)
                            &&& e@[k].1 == self.spec_col_indices()[k]
                            &&& e@[k].2 == self.spec_values()[k]
                        },
                decreases end - idx,
            {
                e.push((row, self.col_indices[idx], self.values[idx]));
                idx = idx + 1;
            }
            row = row + 1;
        }
        proof {
            assert(row_ptr_entry_ok(self.row_ptr@, nnz as nat, self.rows as int));
        }
        e
    }
}

/// `new` accepts exactly the arrays that form a CSR matrix: a row pointer
/// that starts at 0, never decreases (empty rows included) and ends at the
/// number of stored values, with `rows + 1` entries, column indices and
/// values of equal length, and every column index in bounds.
pub proof fn law_new_accepts_exactly_csr<T: Copy + Default + core::ops::Add<Output = T>
    + core::ops::Mul<Output = T>>(
    rows: usize,
    cols: usize,
    row_ptr: Vec<usize>,
    col_indices: Vec<usize>,
    values: Vec<T>,
    r: Result<CsrMatrix<T>, SparseError>,
)
    requires
        call_ensures(CsrMatrix::<T>::new, (rows, cols, row_ptr, col_indices, values), r),
    ensures
        r is Ok <==> csr_accepts(rows as nat, cols as nat, row_ptr@, col_indices@, values@.len()),
{
    let nnz = values@.len();
    if r is Ok {
        assert(csr_valid(rows, cols, row_ptr@, col_indices@, nnz));
        assert(row_ptr_entry_ok(row_ptr@, nnz, 0));
        assert(row_ptr_entry_ok(row_ptr@, nnz, rows as int));
        assert forall|p: int, q: int| 0 <= p <= q <= rows implies #[trigger] row_ptr@[p]
            <= #[trigger] row_ptr@[q] by {
            lemma_row_ptr_monotone(row_ptr@, nnz, p, q);
        }
    } else if csr_accepts(rows as nat, cols as nat, row_ptr@, col_indices@, nnz) {
        assert forall|p: int| 0 <= p < row_ptr@.len() implies #[trigger] row_ptr_entry_ok(
            row_ptr@,
            nnz,
            p,
        ) by {
            assert(row_ptr@[p] <= row_ptr@[rows as int]);
            if p > 0 {
                assert(row_ptr@[p - 1] <= row_ptr@[p]);
            }
        }
        match r {
            Err(SparseError::ColumnOutOfBounds { index, cols: c }) => {
                let k = choose|k: int| #[trigger] first_bad_column(col_indices@, cols, k) && col_indices@[k] == index;
                assert(col_indices@[k] < cols);
            },
            Err(SparseError::InvalidRowPtr { position }) => {
                assert(row_ptr_entry_ok(row_ptr@, nnz, position as int));
            },
            _ => {},
        }
    }
}

} // verus!
