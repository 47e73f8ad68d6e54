//! Laws of the generic kernels and sparse products, stated for `u64`
//! elements, whose `+`, `*` and `default()` are exact (vstd specifies them).
//!
//! Each law takes what the operation's `ensures` states (through the
//! operation itself, or the predicate its `ensures` names) and derives what
//! the result must be from the inputs alone, as an exact sum.
use vstd::prelude::*;
use vstd::arithmetic::div_mod::{lemma_fundamental_div_mod, lemma_fundamental_div_mod_converse};

use crate::arith::{dot_run, dot_value, is_dot, lemma_dot_run_exact};
use crate::kernels::{axpy_result, dot, matmul_result, matrix_col, matrix_row};
use crate::sparse::{lemma_row_ptr_monotone, CsrMatrix, SparseError};

verus! {

/// The `k x k` identity matrix, column-major: entry `(p, j)` is stored at
/// `p + j * k` and is 1 exactly when `p == j`.
pub open spec fn identity_matrix(k: nat) -> Seq<u64> {
    Seq::new(k * k, |q: int| if q % (k as int) == q / (k as int) { 1u64 } else { 0u64 })
}

proof fn lemma_u64_default_is_zero()
    ensures
        forall|z: u64| call_ensures(u64::default, (), z) ==> z == 0u64,
{
}

/// A value `is_dot` describes over `u64` is the closed-form value from 0.
pub proof fn lemma_u64_dot(x: Seq<u64>, y: Seq<u64>, r: u64)
    requires
        is_dot(x, y, r),
    ensures
        r == dot_value(0u64, x, y),
{
    let accs = choose|accs: Seq<u64>| dot_run(x, y, accs) && accs.last() == r;
    lemma_u64_default_is_zero();
    lemma_dot_run_exact(x, y, accs, 0u64);
}

/// Accumulating `x` against the unit vector `e_j` picks out `x[j]`.
proof fn lemma_dot_with_unit_right(x: Seq<u64>, y: Seq<u64>, j: int, t: int)
    requires
        x.len() == y.len(),
        0 <= j < x.len(),
        0 <= t <= x.len(),
        forall|q: int| 0 <= q < y.len() ==> #[trigger] y[q] == (if q == j { 1u64 } else { 0u64 }),
    ensures
        dot_value(0u64, x.take(t), y.take(t)) == (if j < t { x[j] } else { 0u64 }),
    decreases t,
{
    if t > 0 {
        lemma_dot_with_unit_right(x, y, j, t - 1);
        assert(x.take(t).drop_last() =~= x.take(t - 1));
        assert(y.take(t).drop_last() =~= y.take(t - 1));
        assert(x.take(t).last() == x[t - 1]);
        assert(y.take(t).last() == y[t - 1]);
    } else {
        assert(x.take(0).len() == 0);
    }
}

/// Accumulating the unit vector `e_i` against `y` picks out `y[i]`.
proof fn lemma_dot_with_unit_left(x: Seq<u64>, y: Seq<u64>, i: int, t: int)
    requires
        x.len() == y.len(),
        0 <= i < x.len(),
        0 <= t <= x.len(),
        forall|q: int| 0 <= q < x.len() ==> #[trigger] x[q] == (if q == i { 1u64 } else { 0u64 }),
    ensures
        dot_value(0u64, x.take(t), y.take(t)) == (if i < t { y[i] } else { 0u64 }),
    decreases t,
{
    if t > 0 {
        lemma_dot_with_unit_left(x, y, i, t - 1);
        assert(x.take(t).drop_last() =~= x.take(t - 1));
        assert(y.take(t).drop_last() =~= y.take(t - 1));
        assert(x.take(t).last() == x[t - 1]);
        assert(y.take(t).last() == y[t - 1]);
    } else {
        assert(x.take(0).len() == 0);
    }
}

proof fn lemma_identity_entry(k: nat, p: int, j: int)
    requires
        0 <= p < k,
        0 <= j < k,
    ensures
        0 <= p + j * k < k * k,
        identity_matrix(k)[p + j * k] == (if p == j { 1u64 } else { 0u64 }),
{
    assert(0 <= p + j * k < k * k) by (nonlinear_arith)
        requires
            0 <= p < k,
            0 <= j < k,
    ;
    lemma_fundamental_div_mod_converse(p + j * k, k as int, j, p);
}

proof fn lemma_split_position(q: int, m: int, n: int)
    requires
        0 <= q < m * n,
        m >= 0,
        n >= 0,
    ensures
        m > 0,
        0 <= q % m < m,
        0 <= q / m < n,
        q == q % m + (q / m) * m,
{
    assert(m > 0) by (nonlinear_arith)
        requires
            0 <= q < m * n,
            m >= 0,
            n >= 0,
    ;
    lemma_fundamental_div_mod(q, m);
    assert(q / m < n) by (nonlinear_arith)
        requires
            q == m * (q / m) + q % m,
            0 <= q % m < m,
            q < m * n,
    ;
    assert((q / m) * m == m * (q / m)) by (nonlinear_arith);
}

/// Right identity: multiplying the column-major `m x k` matrix `a` by the
/// `k x k` identity gives back `a`, whatever `m` and `k` are.
pub proof fn law_matmul_right_identity(a: Seq<u64>, c: Seq<u64>, m: nat, k: nat)
    requires
        a.len() == m * k,
        matmul_result(a, identity_matrix(k), c, m, k, k),
    ensures
        c == a,
{
    assert forall|q: int| 0 <= q < m * k implies c[q] == a[q] by {
        lemma_split_position(q, m as int, k as int);
        let i = q % (m as int);
        let j = q / (m as int);
        let row = matrix_row(a, m, k, i);
        let col = matrix_col(identity_matrix(k), k, j);
        assert(is_dot(row, col, c[i + j * m]));
        lemma_u64_dot(row, col, c[q]);
        assert forall|p: int| 0 <= p < col.len() implies #[trigger] col[p] == (if p == j {
            1u64
        } else {
            0u64
        }) by {
            lemma_identity_entry(k, p, j);
        }
        lemma_dot_with_unit_right(row, col, j, k as int);
        assert(row.take(k as int) =~= row);
        assert(col.take(k as int) =~= col);
    }
    assert(c =~= a);
}

/// Left identity: multiplying the `m x m` identity by the column-major
/// `m x n` matrix `b` gives back `b`, whatever `m` and `n` are.
pub proof fn law_matmul_left_identity(b: Seq<u64>, c: Seq<u64>, m: nat, n: nat)
    requires
        b.len() == m * n,
        matmul_result(identity_matrix(m), b, c, m, m, n),
    ensures
        c == b,
{
    assert forall|q: int| 0 <= q < m * n implies c[q] == b[q] by {
        lemma_split_position(q, m as int, n as int);
        let i = q % (m as int);
        let j = q / (m as int);
        let row = matrix_row(identity_matrix(m), m, m, i);
        let col = matrix_col(b, m, j);
        assert(is_dot(row, col, c[i + j * m]));
        lemma_u64_dot(row, col, c[q]);
        assert forall|p: int| 0 <= p < row.len() implies #[trigger] row[p] == (if p == i {
            1u64
        } else {
            0u64
        }) by {
            lemma_identity_entry(m, i, p);
        }
        lemma_dot_with_unit_left(row, col, i, m as int);
        assert(row.take(m as int) =~= row);
        assert(col.take(m as int) =~= col);
    }
    assert(c =~= b);
}

/// The exact sum of `x[q] * y[q]` over `q < t`.
pub open spec fn products_sum(x: Seq<u64>, y: Seq<u64>, t: int) -> int
    decreases t,
{
    if t <= 0 {
        0
    } else {
        products_sum(x, y, t - 1) + x[t - 1] * y[t - 1]
    }
}

proof fn lemma_dot_sum(x: Seq<u64>, y: Seq<u64>, t: int)
    requires
        0 <= t <= x.len(),
        x.len() == y.len(),
        products_sum(x, y, t) <= u64::MAX,
    ensures
        dot_value(0u64, x.take(t), y.take(t)) == products_sum(x, y, t),
    decreases t,
{
    if t > 0 {
        lemma_product_nonneg(x[t - 1], y[t - 1]);
        lemma_dot_sum(x, y, t - 1);
        assert(x.take(t).drop_last() =~= x.take(t - 1));
        assert(y.take(t).drop_last() =~= y.take(t - 1));
        assert(x.take(t).last() == x[t - 1]);
        assert(y.take(t).last() == y[t - 1]);
    } else {
        assert(x.take(0).len() == 0);
    }
}

/// A dot product is the exact sum of `x[q] * y[q]` over every position.
pub proof fn law_dot_sum(x: &[u64], y: &[u64], r: u64)
    requires
        call_ensures(dot::<u64>, (x, y), r),
        x@.len() == y@.len(),
        products_sum(x@, y@, x@.len() as int) <= u64::MAX,
    ensures
        r == products_sum(x@, y@, x@.len() as int),
{
    lemma_u64_dot(x@, y@, r);
    lemma_dot_sum(x@, y@, x@.len() as int);
    assert(x@.take(x@.len() as int) =~= x@);
    assert(y@.take(x@.len() as int) =~= y@);
}

/// `axpy` leaves `alpha * x[i] + y[i]` at every position `i`, and nothing
/// else changes length.
pub proof fn law_axpy_exact(alpha: u64, x: Seq<u64>, y_old: Seq<u64>, y_new: Seq<u64>, i: int)
    requires
        axpy_result(alpha, x, y_old, y_new),
        x.len() == y_old.len(),
        0 <= i < x.len(),
        alpha * x[i] + y_old[i] <= u64::MAX,
    ensures
        y_new.len() == y_old.len(),
        y_new[i] == alpha * x[i] + y_old[i],
{
    lemma_product_nonneg(alpha, x[i]);
    assert(crate::kernels::axpy_step(alpha, x[i], y_old[i], y_new[i]));
}

/// The exact sum of `a[i + p * m] * b[p + j * k]` over `p < t`: entry
/// `(i, j)` of the product of the column-major `m x k` matrix `a` and
/// `k x n` matrix `b`, once `t == k`.
pub open spec fn matmul_entry(a: Seq<u64>, b: Seq<u64>, m: int, k: int, i: int, j: int, t: int) -> int
    decreases t,
{
    if t <= 0 {
        0
    } else {
        matmul_entry(a, b, m, k, i, j, t - 1) + a[i + (t - 1) * m] * b[(t - 1) + j * k]
    }
}

proof fn lemma_matmul_dot(a: Seq<u64>, b: Seq<u64>, m: nat, k: nat, i: int, j: int, t: int)
    requires
        0 <= t <= k,
        matmul_entry(a, b, m as int, k as int, i, j, t) <= u64::MAX,
    ensures
        dot_value(0u64, matrix_row(a, m, k, i).take(t), matrix_col(b, k, j).take(t))
            == matmul_entry(a, b, m as int, k as int, i, j, t),
    decreases t,
{
    let row = matrix_row(a, m, k, i);
    let col = matrix_col(b, k, j);
    if t > 0 {
        let v = row[t - 1];
        let g = col[t - 1];
        lemma_product_nonneg(v, g);
        lemma_matmul_dot(a, b, m, k, i, j, t - 1);
        assert(row.take(t).drop_last() =~= row.take(t - 1));
        assert(col.take(t).drop_last() =~= col.take(t - 1));
        assert(row.take(t).last() == v);
        assert(col.take(t).last() == g);
    } else {
        assert(row.take(0).len() == 0);
    }
}

/// Entry `(i, j)` of a product (stored at `i + j * m`) is the exact sum of
/// `a[i + p * m] * b[p + j * k]` over `p < k`: row `i` of `a` is read from
/// column-major storage whatever `m`, `k` and `n` are.
pub proof fn law_matmul_entry(
    a: Seq<u64>,
    b: Seq<u64>,
    c: Seq<u64>,
    m: nat,
    k: nat,
    n: nat,
    i: int,
    j: int,
)
    requires
        matmul_result(a, b, c, m, k, n),
        0 <= i < m,
        0 <= j < n,
        matmul_entry(a, b, m as int, k as int, i, j, k as int) <= u64::MAX,
    ensures
        c[i + j * m] == matmul_entry(a, b, m as int, k as int, i, j, k as int),
{
    let row = matrix_row(a, m, k, i);
    let col = matrix_col(b, k, j);
    lemma_u64_dot(row, col, c[i + j * m]);
    lemma_matmul_dot(a, b, m, k, i, j, k as int);
    assert(row.take(k as int) =~= row);
    assert(col.take(k as int) =~= col);
}

/// The exact sum of `values[q] * x[col_indices[q]]` over the stored
/// positions `lo <= q < hi`.
pub open spec fn stored_products(
    values: Seq<u64>,
    col_indices: Seq<usize>,
    x: Seq<u64>,
    lo: int,
    hi: int,
) -> int
    decreases hi - lo,
{
    if hi <= lo {
        0
    } else {
        stored_products(values, col_indices, x, lo, hi - 1) + values[hi - 1] * x[col_indices[hi
            - 1] as int]
    }
}

proof fn lemma_product_nonneg(a: u64, b: u64)
    ensures
        0 <= a * b,
{
    assert(0 <= a * b) by (nonlinear_arith)
        requires
            0 <= a,
            0 <= b,
    ;
}

/// The multiply-accumulate over row `r`'s stored entries equals the exact
/// sum of their products, for the first `t` of them.
proof fn lemma_row_dot(
    vals: Seq<u64>,
    gath: Seq<u64>,
    values: Seq<u64>,
    col_indices: Seq<usize>,
    x: Seq<u64>,
    lo: int,
    t: int,
)
    requires
        0 <= t <= vals.len(),
        gath.len() == vals.len(),
        forall|q: int|
            0 <= q < vals.len() ==> #[trigger] vals[q] == values[lo + q] && gath[q] == x[col_indices[lo
                + q] as int],
        stored_products(values, col_indices, x, lo, lo + t) <= u64::MAX,
    ensures
        dot_value(0u64, vals.take(t), gath.take(t)) == stored_products(
            values,
            col_indices,
            x,
            lo,
            lo + t,
        ),
    decreases t,
{
    if t > 0 {
        let v = vals[t - 1];
        let g = gath[t - 1];
        assert(v == values[lo + t - 1] && g == x[col_indices[lo + t - 1] as int]);
        lemma_product_nonneg(v, g);
        lemma_row_dot(vals, gath, values, col_indices, x, lo, t - 1);
        assert(vals.take(t).drop_last() =~= vals.take(t - 1));
        assert(gath.take(t).drop_last() =~= gath.take(t - 1));
        assert(vals.take(t).last() == v);
        assert(gath.take(t).last() == g);
    } else {
        assert(vals.take(0).len() == 0);
    }
}

/// Row `r` of a sparse product `A * x` is the exact sum, over every stored
/// position `q` of row `r` (all of `row_ptr[r] .. row_ptr[r + 1]`), of
/// `values[q] * x[col_indices[q]]`.
pub proof fn law_spmv_row_sum(
    a: &CsrMatrix<u64>,
    x: &[u64],
    res: Result<Vec<u64>, SparseError>,
    r: int,
)
    requires
        a.wf(),
        call_ensures(CsrMatrix::<u64>::spmv, (a, x), res),
        x@.len() == a.spec_cols(),
        0 <= r < a.spec_rows(),
        stored_products(
            a.spec_values(),
            a.spec_col_indices(),
            x@,
            a.spec_row_ptr()[r] as int,
            a.spec_row_ptr()[r + 1] as int,
        ) <= u64::MAX,
    ensures
        res is Ok,
        res->Ok_0@.len() == a.spec_rows(),
        res->Ok_0@[r] == stored_products(
            a.spec_values(),
            a.spec_col_indices(),
            x@,
            a.spec_row_ptr()[r] as int,
            a.spec_row_ptr()[r + 1] as int,
        ),
{
    let y = res->Ok_0;
    let lo = a.spec_row_ptr()[r] as int;
    let hi = a.spec_row_ptr()[r + 1] as int;
    lemma_row_ptr_monotone(a.spec_row_ptr(), a.spec_values().len(), r, r + 1);
    let vals = a.row_values(r);
    let gath = a.row_gather(r, x@);
    lemma_u64_dot(vals, gath, y@[r]);
    lemma_row_dot(vals, gath, a.spec_values(), a.spec_col_indices(), x@, lo, hi - lo);
    assert(vals.take(hi - lo) =~= vals);
    assert(gath.take(hi - lo) =~= gath);
}

/// The exact sum of `values[q] * w` over the stored positions
/// `lo <= q < hi` whose column is `c`.
pub open spec fn column_products(
    values: Seq<u64>,
    col_indices: Seq<usize>,
    w: u64,
    c: int,
    lo: int,
    hi: int,
) -> int
    decreases hi - lo,
{
    if hi <= lo {
        0
    } else {
        column_products(values, col_indices, w, c, lo, hi - 1) + if col_indices[hi - 1] == c {
            values[hi - 1] * w
        } else {
            0
        }
    }
}

/// Entry `c` of `A^T x` restricted to the first `n` rows: the exact sum,
/// over every row `r < n` and every stored entry `(r, c, v)` of that row,
/// of `v * x[r]`.
pub open spec fn transposed_entry(
    values: Seq<u64>,
    col_indices: Seq<usize>,
    row_ptr: Seq<usize>,
    x: Seq<u64>,
    c: int,
    n: int,
) -> int
    decreases n,
{
    if n <= 0 {
        0
    } else {
        transposed_entry(values, col_indices, row_ptr, x, c, n - 1) + column_products(
            values,
            col_indices,
            x[n - 1],
            c,
            row_ptr[n - 1] as int,
            row_ptr[n] as int,
        )
    }
}

proof fn lemma_column_products_nonneg(
    values: Seq<u64>,
    col_indices: Seq<usize>,
    w: u64,
    c: int,
    lo: int,
    hi: int,
)
    ensures
        0 <= column_products(values, col_indices, w, c, lo, hi),
    decreases hi - lo,
{
    if hi > lo {
        lemma_column_products_nonneg(values, col_indices, w, c, lo, hi - 1);
        lemma_product_nonneg(values[hi - 1], w);
    }
}

proof fn lemma_transposed_entry_monotone(
    values: Seq<u64>,
    col_indices: Seq<usize>,
    row_ptr: Seq<usize>,
    x: Seq<u64>,
    c: int,
    n: int,
    m: int,
)
    requires
        0 <= n <= m,
    ensures
        transposed_entry(values, col_indices, row_ptr, x, c, n) <= transposed_entry(
            values,
            col_indices,
            row_ptr,
            x,
            c,
            m,
        ),
    decreases m - n,
{
    if n < m {
        lemma_transposed_entry_monotone(values, col_indices, row_ptr, x, c, n, m - 1);
        lemma_column_products_nonneg(
            values,
            col_indices,
            x[m - 1],
            c,
            row_ptr[m - 1] as int,
            row_ptr[m] as int,
        );
    }
}

/// Within row `r`, after the stored positions `row_ptr[r] .. t` have been
/// scattered, entry `c` has grown by exactly their products with `x[r]`.
proof fn lemma_transpose_row(
    a: &CsrMatrix<u64>,
    x: Seq<u64>,
    states: Seq<Seq<u64>>,
    c: int,
    r: int,
    t: int,
    base: int,
)
    requires
        a.wf(),
        a.transpose_run(x, states),
        0 <= r < a.spec_rows(),
        0 <= c < a.spec_cols(),
        a.spec_row_ptr()[r] <= t <= a.spec_row_ptr()[r + 1],
        states[a.spec_row_ptr()[r] as int].len() == a.spec_cols(),
        states[a.spec_row_ptr()[r] as int][c] == base,
        base + column_products(
            a.spec_values(),
            a.spec_col_indices(),
            x[r],
            c,
            a.spec_row_ptr()[r] as int,
            t,
        ) <= u64::MAX,
    ensures
        states[t].len() == a.spec_cols(),
        states[t][c] == base + column_products(
            a.spec_values(),
            a.spec_col_indices(),
            x[r],
            c,
            a.spec_row_ptr()[r] as int,
            t,
        ),
    decreases t - a.spec_row_ptr()[r],
{
    let lo = a.spec_row_ptr()[r] as int;
    if t > lo {
        let q = t - 1;
        let v = a.spec_values()[q];
        lemma_product_nonneg(v, x[r]);
        lemma_transpose_row(a, x, states, c, r, q, base);
        lemma_row_ptr_monotone(a.spec_row_ptr(), a.spec_values().len(), r + 1, a.spec_rows() as int);
        assert(a.entry_row(q, r));
        assert(crate::sparse::scatter_step(
            states[q],
            states[q + 1],
            a.spec_col_indices()[q] as int,
            v,
            x[r],
        ));
    }
}

/// After the first `n` rows have been scattered, entry `c` is
/// `transposed_entry(.., c, n)`.
proof fn lemma_transpose_rows(a: &CsrMatrix<u64>, x: Seq<u64>, states: Seq<Seq<u64>>, c: int, n: int)
    requires
        a.wf(),
        a.transpose_run(x, states),
        0 <= c < a.spec_cols(),
        0 <= n <= a.spec_rows(),
        transposed_entry(
            a.spec_values(),
            a.spec_col_indices(),
            a.spec_row_ptr(),
            x,
            c,
            a.spec_rows() as int,
        ) <= u64::MAX,
    ensures
        states[a.spec_row_ptr()[n] as int].len() == a.spec_cols(),
        states[a.spec_row_ptr()[n] as int][c] == transposed_entry(
            a.spec_values(),
            a.spec_col_indices(),
            a.spec_row_ptr(),
            x,
            c,
            n,
        ),
    decreases n,
{
    let nnz = a.spec_values().len();
    if n == 0 {
        assert(crate::sparse::row_ptr_entry_ok(a.spec_row_ptr(), nnz, 0));
        lemma_u64_default_is_zero();
        assert(call_ensures(u64::default, (), states[0][c]));
    } else {
        lemma_transpose_rows(a, x, states, c, n - 1);
        lemma_transposed_entry_monotone(
            a.spec_values(),
            a.spec_col_indices(),
            a.spec_row_ptr(),
            x,
            c,
            n,
            a.spec_rows() as int,
        );
        lemma_row_ptr_monotone(a.spec_row_ptr(), nnz, n - 1, n);
        lemma_transpose_row(
            a,
            x,
            states,
            c,
            n - 1,
            a.spec_row_ptr()[n] as int,
            transposed_entry(a.spec_values(), a.spec_col_indices(), a.spec_row_ptr(), x, c, n - 1),
        );
    }
}

/// Entry `c` of the transposed product `A^T * x` is the exact sum, over
/// every stored entry `(r, c, v)` in column `c`, of `v * x[r]`, whatever
/// the matrix's dimensions (square ones included).
pub proof fn law_transpose_spmv_column_sum(
    a: &CsrMatrix<u64>,
    x: &[u64],
    res: Result<Vec<u64>, SparseError>,
    c: int,
)
    requires
        a.wf(),
        call_ensures(CsrMatrix::<u64>::transpose_spmv, (a, x), res),
        x@.len() == a.spec_rows(),
        0 <= c < a.spec_cols(),
        transposed_entry(
            a.spec_values(),
            a.spec_col_indices(),
            a.spec_row_ptr(),
            x@,
            c,
            a.spec_rows() as int,
        ) <= u64::MAX,
    ensures
        res is Ok,
        res->Ok_0@.len() == a.spec_cols(),
        res->Ok_0@[c] == transposed_entry(
            a.spec_values(),
            a.spec_col_indices(),
            a.spec_row_ptr(),
            x@,
            c,
            a.spec_rows() as int,
        ),
{
    let y = res->Ok_0;
    let states = choose|states: Seq<Seq<u64>>|
        #[trigger] a.transpose_run(x@, states) && states.last() == y@;
    lemma_transpose_rows(a, x@, states, c, a.spec_rows() as int);
    assert(crate::sparse::row_ptr_entry_ok(
        a.spec_row_ptr(),
        a.spec_values().len(),
        a.spec_rows() as int,
    ));
}

} // verus!
