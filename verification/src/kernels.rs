//! Generic dense kernels: matmul, axpy, dot, norm2.
//!
//! Plain reference implementations: the correctness oracle that accelerated
//! backends are compared against, and the fallback where no accelerated
//! backend exists.
use vstd::prelude::*;
use vstd::std_specs::ops::AddSpec;
use vstd::std_specs::ops::MulSpec;

use vstd::arithmetic::div_mod::{lemma_fundamental_div_mod, lemma_fundamental_div_mod_converse};

use crate::arith::{dot_defined, dot_run, is_dot, mul_add_defined, mul_add_step};

verus! {

/// The one operation the kernels need beyond `+`, `*` and `default()`.
///
/// Implemented by the caller's element type (the floating-point types in
/// practice); nothing is assumed about what `sqrt` returns.
pub trait Scalar: Copy + Default + core::ops::Add<Output = Self> + core::ops::Mul<
    Output = Self,
> {
    fn sqrt(self) -> Self;
}

/// `out` is a value that `alpha * x + y` evaluates to.
pub open spec fn axpy_step<T: core::ops::Add<Output = T> + core::ops::Mul<Output = T>>(
    alpha: T,
    x: T,
    y: T,
    out: T,
) -> bool {
    exists|p: T|
        #![trigger call_ensures(<T as core::ops::Mul>::mul, (alpha, x), p)]
        call_ensures(<T as core::ops::Mul>::mul, (alpha, x), p) && call_ensures(
            <T as core::ops::Add>::add,
            (p, y),
            out,
        )
}

/// The step `alpha * x + y` can be taken: the product is defined, and so is
/// adding `y` to any value it can evaluate to.
pub open spec fn axpy_defined<T: core::ops::Add<Output = T> + core::ops::Mul<Output = T>>(
    alpha: T,
    x: T,
    y: T,
) -> bool {
    &&& alpha.mul_req(x)
    &&& forall|p: T| #[trigger] call_ensures(<T as core::ops::Mul>::mul, (alpha, x), p) ==> p.add_req(y)
}

/// `y_new` is what `axpy` leaves in `y_old`: position `i` holds a value
/// that `alpha * x[i] + y_old[i]` evaluates to.
pub open spec fn axpy_result<T: core::ops::Add<Output = T> + core::ops::Mul<Output = T>>(
    alpha: T,
    x: Seq<T>,
    y_old: Seq<T>,
    y_new: Seq<T>,
) -> bool {
    &&& y_new.len() == y_old.len()
    &&& forall|i: int| 0 <= i < x.len() ==> #[trigger] axpy_step(alpha, x[i], y_old[i], y_new[i])
}

/// `y = alpha * x + y`, element by element.
pub fn axpy<T: Copy + core::ops::Add<Output = T> + core::ops::Mul<Output = T>>(
    alpha: T,
    x: &[T],
    y: &mut [T],
)
    requires
        x@.len() == old(y)@.len(),
        forall|i: int| 0 <= i < x@.len() ==> #[trigger] axpy_defined(alpha, x@[i], old(y)@[i]),
    ensures
        final(y)@.len() == old(y)@.len(),
        forall|i: int|
            0 <= i < x@.len() ==> #[trigger] axpy_step(alpha, x@[i], old(y)@[i], final(y)@[i]),
        axpy_result(alpha, x@, old(y)@, final(y)@),
{
    let n = x.len();
    let mut i: usize = 0;
    while i < n
        invariant
            n == x@.len(),
            y@.len() == n,
            old(y)@.len() == n,
            forall|j: int| 0 <= j < n ==> #[trigger] axpy_defined(alpha, x@[j], old(y)@[j]),
            i <= n,
            forall|j: int| 0 <= j < i ==> #[trigger] axpy_step(alpha, x@[j], old(y)@[j], y@[j]),
            forall|j: int| i <= j < n ==> y@[j] == old(y)@[j],
        decreases n - i,
    {
        proof {
            assert(axpy_defined(alpha, x@[i as int], old(y)@[i as int]));
        }
        let p = alpha * x[i];
        proof {
            assert(call_ensures(<T as core::ops::Mul>::mul, (alpha, x@[i as int]), p));
        }
        let v = p + y[i];
        y[i] = v;
        i = i + 1;
    }
}

/// Dot product of two equal-length vectors, accumulated from the first
/// element on.
pub fn dot<T: Copy + Default + core::ops::Add<Output = T> + core::ops::Mul<Output = T>>(
    x: &[T],
    y: &[T],
) -> (r: T)
    requires
        x@.len() == y@.len(),
        dot_defined(x@, y@),
    ensures
        is_dot(x@, y@, r),
{
    let n = x.len();
    let mut acc = T::default();
    let ghost mut accs: Seq<T> = seq![acc];
    let mut i: usize = 0;
    while i < n
        invariant
            n == x@.len(),
            n == y@.len(),
            dot_defined(x@, y@),
            i <= n,
            dot_run(x@.take(i as int), y@.take(i as int), accs),
            accs.last() == acc,
        decreases n - i,
    {
        proof {
            assert(mul_add_defined(accs.last(), x@[i as int], y@[i as int]));
        }
        let p = x[i] * y[i];
        proof {
            assert(call_ensures(<T as core::ops::Mul>::mul, (x@[i as int], y@[i as int]), p));
        }
        let next = acc + p;
        proof {
            assert(mul_add_step(acc, x@[i as int], y@[i as int], next));
            let old_accs = accs;
            accs = accs.push(next);
            assert forall|j: int| 0 <= j < i + 1 implies #[trigger] mul_add_step(
                accs[j],
                x@.take(i + 1)[j],
                y@.take(i + 1)[j],
                accs[j + 1],
            ) by {
                if j < i {
                    assert(mul_add_step(
                        old_accs[j],
                        x@.take(i as int)[j],
                        y@.take(i as int)[j],
                        old_accs[j + 1],
                    ));
                }
            }
        }
        acc = next;
        i = i + 1;
    }
    proof {
        assert(x@.take(n as int) =~= x@);
        assert(y@.take(n as int) =~= y@);
    }
    acc
}

/// Euclidean (L2) norm: `T::sqrt` of the dot product of `x` with itself.
pub fn norm2<T: Scalar>(x: &[T]) -> (r: T)
    requires
        dot_defined(x@, x@),
    ensures
        exists|d: T| is_dot(x@, x@, d) && #[trigger] call_ensures(T::sqrt, (d,), r),
{
    let d = dot(x, x);
    let r = d.sqrt();
    assert(call_ensures(T::sqrt, (d,), r));
    r
}

/// Row `i` of the column-major `m x k` matrix `a`.
pub open spec fn matrix_row<T>(a: Seq<T>, m: nat, k: nat, i: int) -> Seq<T> {
    Seq::new(k, |p: int| a[i + p * m])
}

/// Column `j` of the column-major `k x n` matrix `b`.
pub open spec fn matrix_col<T>(b: Seq<T>, k: nat, j: int) -> Seq<T> {
    Seq::new(k, |p: int| b[p + j * k])
}

/// `c` is what `matmul` leaves for the column-major `m x k` matrix `a`
/// and `k x n` matrix `b`.
pub open spec fn matmul_result<T: Default + core::ops::Add<Output = T> + core::ops::Mul<Output = T>>(
    a: Seq<T>,
    b: Seq<T>,
    c: Seq<T>,
    m: nat,
    k: nat,
    n: nat,
) -> bool {
    &&& c.len() == m * n
    &&& forall|i: int, j: int|
        0 <= i < m && 0 <= j < n ==> is_dot(
            matrix_row(a, m, k, i),
            matrix_col(b, k, j),
            #[trigger] c[i + j * m],
        )
}

/// How many products have been accumulated into flat position `pos` of
/// the output once the loops stand at column `j`, inner index `p`, row `i`.
spec fn matmul_progress(pos: int, m: int, k: int, i: int, j: int, p: int) -> int {
    let ii = pos % m;
    let jj = pos / m;
    if jj < j {
        k
    } else if jj > j {
        0
    } else if ii < i {
        p + 1
    } else {
        p
    }
}

/// Every output position holds the last value of its recorded
/// multiply-accumulate run, which covers the products accumulated so far.
spec fn matmul_state<T: Default + core::ops::Add<Output = T> + core::ops::Mul<Output = T>>(
    a: Seq<T>,
    b: Seq<T>,
    c: Seq<T>,
    runs: Seq<Seq<T>>,
    m: nat,
    k: nat,
    n: nat,
    i: int,
    j: int,
    p: int,
) -> bool {
    &&& c.len() == m * n
    &&& runs.len() == m * n
    &&& forall|pos: int|
        0 <= pos < m * n ==> {
            let len = matmul_progress(pos, m as int, k as int, i, j, p);
            &&& 0 <= len <= k
            &&& dot_run(
                matrix_row(a, m, k, pos % (m as int)).take(len),
                matrix_col(b, k, pos / (m as int)).take(len),
                #[trigger] runs[pos],
            )
            &&& runs[pos].last() == c[pos]
        }
}

proof fn lemma_matmul_index_bound(i: int, j: int, m: int, n: int)
    requires
        0 <= i < m,
        0 <= j < n,
    ensures
        0 <= i + j * m < m * n,
        0 <= j * m,
{
    assert(0 <= i + j * m < m * n && 0 <= j * m) by (nonlinear_arith)
        requires
            0 <= i < m,
            0 <= j < n,
    ;
}

proof fn lemma_matmul_pos_split(pos: int, m: int, n: int)
    requires
        0 <= pos < m * n,
        m >= 0,
        n >= 0,
    ensures
        m > 0,
        0 <= pos % m < m,
        0 <= pos / m < n,
        pos == pos % m + (pos / m) * m,
{
    assert(m > 0) by (nonlinear_arith)
        requires
            0 <= pos < m * n,
            m >= 0,
            n >= 0,
    ;
    lemma_fundamental_div_mod(pos, m);
    assert(pos / m < n && pos / m >= 0 && pos % m >= 0 && pos % m < m) by (nonlinear_arith)
        requires
            pos == m * (pos / m) + pos % m,
            0 <= pos % m < m,
            0 <= pos < m * n,
            m > 0,
    ;
    assert((pos / m) * m == m * (pos / m)) by (nonlinear_arith);
}

/// Column-major dense matmul: `c[m x n] = a[m x k] * b[k x n]`, where
/// element `(i, j)` of an `m x n` matrix is stored at `i + j * m`.
///
/// Every output element starts from `T::default()` and accumulates
/// `a[i, p] * b[p, j]` for `p = 0, 1, ..., k - 1` in that order.
pub fn matmul<T: Copy + Default + core::ops::Add<Output = T> + core::ops::Mul<Output = T>>(
    a: &[T],
    b: &[T],
    c: &mut [T],
    m: usize,
    k: usize,
    n: usize,
)
    requires
        a@.len() == m * k,
        b@.len() == k * n,
        old(c)@.len() == m * n,
        forall|i: int, j: int|
            0 <= i < m && 0 <= j < n ==> #[trigger] dot_defined(
                matrix_row(a@, m as nat, k as nat, i),
                matrix_col(b@, k as nat, j),
            ),
    ensures
        final(c)@.len() == m * n,
        forall|i: int, j: int|
            0 <= i < m && 0 <= j < n ==> is_dot(
                matrix_row(a@, m as nat, k as nat, i),
                matrix_col(b@, k as nat, j),
                #[trigger] final(c)@[i + j * m],
            ),
        matmul_result(a@, b@, final(c)@, m as nat, k as nat, n as nat),
{
    let total = c.len();
    let mut t: usize = 0;
    let ghost mut runs: Seq<Seq<T>> = Seq::empty();
    while t < total
        invariant
            total == c@.len(),
            total == m * n,
            t <= total,
            runs.len() == t,
            forall|q: int|
                0 <= q < t ==> #[trigger] runs[q] == seq![c@[q]] && call_ensures(
                    T::default,
                    (),
                    c@[q],
                ),
        decreases total - t,
    {
        let z = T::default();
        c[t] = z;
        proof {
            runs = runs.push(seq![z]);
        }
        t = t + 1;
    }
    assert(matmul_state(a@, b@, c@, runs, m as nat, k as nat, n as nat, 0, 0, 0)) by {
        assert forall|pos: int| 0 <= pos < m * n implies {
            let len = matmul_progress(pos, m as int, k as int, 0, 0, 0);
            &&& 0 <= len <= k
            &&& dot_run(
                matrix_row(a@, m as nat, k as nat, pos % (m as int)).take(len),
                matrix_col(b@, k as nat, pos / (m as int)).take(len),
                #[trigger] runs[pos],
            )
            &&& runs[pos].last() == c@[pos]
        } by {
            lemma_matmul_pos_split(pos, m as int, n as int);
            assert(runs[pos] == seq![c@[pos]]);
        }
    }
    let mut j: usize = 0;
    while j < n
        invariant
            a@.len() == m * k,
            b@.len() == k * n,
            forall|ii: int, jj: int|
                0 <= ii < m && 0 <= jj < n ==> #[trigger] dot_defined(
                    matrix_row(a@, m as nat, k as nat, ii),
                    matrix_col(b@, k as nat, jj),
                ),
            j <= n,
            matmul_state(a@, b@, c@, runs, m as nat, k as nat, n as nat, 0, j as int, 0),
        decreases n - j,
    {
        let mut p: usize = 0;
        while p < k
            invariant
                a@.len() == m * k,
                b@.len() == k * n,
                forall|ii: int, jj: int|
                    0 <= ii < m && 0 <= jj < n ==> #[trigger] dot_defined(
                        matrix_row(a@, m as nat, k as nat, ii),
                        matrix_col(b@, k as nat, jj),
                    ),
                j < n,
                p <= k,
                matmul_state(a@, b@, c@, runs, m as nat, k as nat, n as nat, 0, j as int, p as int),
            decreases k - p,
        {
            proof {
                lemma_matmul_index_bound(p as int, j as int, k as int, n as int);
            }
            proof {
                assert(b@.len() == b.len());
            }
            let b_pj = b[p + j * k];
            let mut i: usize = 0;
            while i < m
                invariant
                    a@.len() == m * k,
                    b@.len() == k * n,
                    forall|ii: int, jj: int|
                        0 <= ii < m && 0 <= jj < n ==> #[trigger] dot_defined(
                            matrix_row(a@, m as nat, k as nat, ii),
                            matrix_col(b@, k as nat, jj),
                        ),
                    j < n,
                    p < k,
                    i <= m,
                    b_pj == b@[p + j * k],
                    matmul_state(
                        a@,
                        b@,
                        c@,
                        runs,
                        m as nat,
                        k as nat,
                        n as nat,
                        i as int,
                        j as int,
                        p as int,
                    ),
                decreases m - i,
            {
                proof {
                    lemma_matmul_index_bound(i as int, j as int, m as int, n as int);
                    lemma_matmul_index_bound(i as int, p as int, m as int, k as int);
                    assert(a@.len() == a.len());
                    assert(c@.len() == c.len());
                }
                let pos = i + j * m;
                let a_ip = a[i + p * m];
                proof {
                    let mi = m as int;
                    lemma_fundamental_div_mod_converse(pos as int, mi, j as int, i as int);
                    let row = matrix_row(a@, m as nat, k as nat, i as int);
                    let col = matrix_col(b@, k as nat, j as int);
                    assert(row[p as int] == a_ip);
                    assert(col[p as int] == b_pj);
                    assert(matmul_progress(pos as int, mi, k as int, i as int, j as int, p as int)
                        == p);
                    assert(dot_run(row.take(p as int), col.take(p as int), runs[pos as int]));
                    assert(dot_defined(row, col));
                    assert(mul_add_defined(runs[pos as int].last(), row[p as int], col[p as int]));
                }
                let prod = a_ip * b_pj;
                proof {
                    assert(call_ensures(<T as core::ops::Mul>::mul, (a_ip, b_pj), prod));
                }
                let next = c[pos] + prod;
                proof {
                    let mi = m as int;
                    let row = matrix_row(a@, m as nat, k as nat, i as int);
                    let col = matrix_col(b@, k as nat, j as int);
                    let old_run = runs[pos as int];
                    assert(dot_run(row.take(p as int), col.take(p as int), old_run));
                    assert(mul_add_step(old_run.last(), row[p as int], col[p as int], next));
                    let new_run = old_run.push(next);
                    assert(dot_run(row.take(p + 1), col.take(p + 1), new_run)) by {
                        assert forall|q: int| 0 <= q < p + 1 implies #[trigger] mul_add_step(
                            new_run[q],
                            row.take(p + 1)[q],
                            col.take(p + 1)[q],
                            new_run[q + 1],
                        ) by {
                            if q < p {
                                assert(mul_add_step(
                                    old_run[q],
                                    row.take(p as int)[q],
                                    col.take(p as int)[q],
                                    old_run[q + 1],
                                ));
                            }
                        }
                    }
                    let old_runs = runs;
                    let old_c = c@;
                    runs = runs.update(pos as int, new_run);
                    let new_c = old_c.update(pos as int, next);
                    assert(matmul_state(
                        a@,
                        b@,
                        new_c,
                        runs,
                        m as nat,
                        k as nat,
                        n as nat,
                        i + 1,
                        j as int,
                        p as int,
                    )) by {
                        assert forall|q: int| 0 <= q < m * n implies {
                            let len = matmul_progress(q, mi, k as int, i + 1, j as int, p as int);
                            &&& 0 <= len <= k
                            &&& dot_run(
                                matrix_row(a@, m as nat, k as nat, q % mi).take(len),
                                matrix_col(b@, k as nat, q / mi).take(len),
                                #[trigger] runs[q],
                            )
                            &&& runs[q].last() == new_c[q]
                        } by {
                            lemma_matmul_pos_split(q, mi, n as int);
                            if q != pos {
                                assert(old_runs[q] == runs[q]);
                                assert(matmul_progress(q, mi, k as int, i + 1, j as int, p as int)
                                    == matmul_progress(q, mi, k as int, i as int, j as int, p as int));
                            }
                        }
                    }
                }
                c[pos] = next;
                i = i + 1;
            }
            proof {
                let mi = m as int;
                assert forall|q: int| 0 <= q < m * n implies #[trigger] matmul_progress(
                    q,
                    mi,
                    k as int,
                    mi,
                    j as int,
                    p as int,
                ) == matmul_progress(q, mi, k as int, 0, j as int, p + 1) by {
                    lemma_matmul_pos_split(q, mi, n as int);
                }
            }
            p = p + 1;
        }
        proof {
            let mi = m as int;
            assert forall|q: int| 0 <= q < m * n implies #[trigger] matmul_progress(
                q,
                mi,
                k as int,
                0,
                j as int,
                k as int,
            ) == matmul_progress(q, mi, k as int, 0, j + 1, 0) by {
                lemma_matmul_pos_split(q, mi, n as int);
            }
        }
        j = j + 1;
    }
    proof {
        let mi = m as int;
        assert forall|i: int, jj: int| 0 <= i < m && 0 <= jj < n implies is_dot(
            matrix_row(a@, m as nat, k as nat, i),
            matrix_col(b@, k as nat, jj),
            #[trigger] c@[i + jj * m],
        ) by {
            lemma_matmul_index_bound(i, jj, mi, n as int);
            let pos = i + jj * mi;
            lemma_fundamental_div_mod_converse(pos, mi, jj, i);
            assert(matrix_row(a@, m as nat, k as nat, i).take(k as int) =~= matrix_row(
                a@,
                m as nat,
                k as nat,
                i,
            ));
            assert(matrix_col(b@, k as nat, jj).take(k as int) =~= matrix_col(b@, k as nat, jj));
            assert(dot_run(
                matrix_row(a@, m as nat, k as nat, i),
                matrix_col(b@, k as nat, jj),
                runs[pos],
            ));
        }
    }
}

} // verus!
