use vstd::prelude::*;
use vstd::arithmetic::div_mod::lemma_fundamental_div_mod_converse;
use vstd::arithmetic::div_mod::lemma_fundamental_div_mod;

use crate::shape::{dims_product, lemma_product_first, lemma_product_take_step, Shape};

verus! {

/// Memory ordering for a dense layout.
///
/// `ColumnMajor` is the default of the library (it matches BLAS/LAPACK, so
/// no transpose is needed on the way into an accelerated backend).
#[derive(Debug, Clone, Copy, PartialEq, Eq, Hash, Structural)]
pub enum Order {
    RowMajor,
    ColumnMajor,
}

/// Stride of dimension `k` of a contiguous layout: the product of the
/// dimensions after `k` (row-major, last dimension fastest) or before `k`
/// (column-major, first dimension fastest).
pub open spec fn contiguous_stride(dims: Seq<usize>, order: Order, k: int) -> nat {
    match order {
        Order::RowMajor => dims_product(dims.skip(k + 1)),
        Order::ColumnMajor => dims_product(dims.take(k)),
    }
}

/// Every stride of the contiguous layout fits in a `usize`.
pub open spec fn strides_fit(dims: Seq<usize>, order: Order) -> bool {
    forall|k: int| 0 <= k < dims.len() ==> #[trigger] contiguous_stride(dims, order, k) <= usize::MAX
}

/// The exact (unbounded) strides of the contiguous layout of `dims`.
pub open spec fn stride_seq(dims: Seq<usize>, order: Order) -> Seq<int> {
    Seq::new(dims.len(), |k: int| contiguous_stride(dims, order, k) as int)
}

/// The stride vector of the contiguous layout of `dims` in `order`, as
/// stored (exact whenever `strides_fit`).
pub open spec fn contiguous_strides_spec(dims: Seq<usize>, order: Order) -> Seq<usize> {
    Seq::new(dims.len(), |k: int| contiguous_stride(dims, order, k) as usize)
}

/// A stride vector read as mathematical integers.
pub open spec fn widen(strides: Seq<usize>) -> Seq<int> {
    strides.map_values(|s: usize| s as int)
}

/// `sum_k index[k] * strides[k]`, accumulated from the first dimension on.
pub open spec fn linear_offset(index: Seq<usize>, strides: Seq<int>) -> int
    decreases index.len(),
{
    if index.len() == 0 {
        0
    } else {
        linear_offset(index.drop_last(), strides.drop_last()) + (index.last() as int) * strides.last()
    }
}

/// `index` addresses an element of `dims`: same rank, every coordinate
/// below its dimension.
pub open spec fn in_bounds(dims: Seq<usize>, index: Seq<usize>) -> bool {
    &&& index.len() == dims.len()
    &&& forall|k: int| 0 <= k < dims.len() ==> #[trigger] index[k] < dims[k]
}

/// Flat position of `index` in the contiguous layout of `dims`, written in
/// the nested form that makes the mixed-radix structure visible:
/// column-major adds the last coordinate times the size of everything
/// before it; row-major scales everything before by the last dimension and
/// adds the last coordinate.
pub open spec fn element_offset(dims: Seq<usize>, order: Order, index: Seq<usize>) -> int
    decreases dims.len(),
{
    if dims.len() == 0 || index.len() == 0 {
        0
    } else {
        match order {
            Order::ColumnMajor => element_offset(dims.drop_last(), order, index.drop_last()) + (
            index.last() as int) * (dims_product(dims.drop_last()) as int),
            Order::RowMajor => element_offset(dims.drop_last(), order, index.drop_last()) * (
            dims.last() as int) + (index.last() as int),
        }
    }
}

/// The logical index stored at flat position `pos` of the contiguous layout
/// of `dims` (the inverse of `element_offset`).
pub open spec fn element_index(dims: Seq<usize>, order: Order, pos: nat) -> Seq<usize>
    decreases dims.len(),
{
    if dims.len() == 0 {
        Seq::<usize>::empty()
    } else {
        let inner = dims.drop_last();
        match order {
            Order::ColumnMajor => {
                let p = dims_product(inner);
                if p == 0 {
                    element_index(inner, order, 0).push(0usize)
                } else {
                    element_index(inner, order, pos % p).push((pos / p) as usize)
                }
            },
            Order::RowMajor => {
                let d = dims.last() as nat;
                if d == 0 {
                    element_index(inner, order, 0).push(0usize)
                } else {
                    element_index(inner, order, pos / d).push((pos % d) as usize)
                }
            },
        }
    }
}

proof fn lemma_linear_offset_nonneg(index: Seq<usize>, strides: Seq<int>)
    requires
        forall|k: int| 0 <= k < strides.len() ==> strides[k] >= 0,
        strides.len() == index.len(),
    ensures
        linear_offset(index, strides) >= 0,
    decreases index.len(),
{
    if index.len() > 0 {
        lemma_linear_offset_nonneg(index.drop_last(), strides.drop_last());
        let a = index.last() as int;
        let b = strides.last();
        assert(a * b >= 0) by (nonlinear_arith)
            requires
                a >= 0,
                b >= 0,
        ;
    }
}

/// The running sums of `linear_offset` never exceed the full sum.
pub proof fn lemma_linear_offset_prefix(index: Seq<usize>, strides: Seq<int>, k: int)
    requires
        0 <= k <= index.len(),
        strides.len() == index.len(),
        forall|j: int| 0 <= j < strides.len() ==> strides[j] >= 0,
    ensures
        0 <= linear_offset(index.take(k), strides.take(k)) <= linear_offset(index, strides),
    decreases index.len(),
{
    lemma_linear_offset_nonneg(index.take(k), strides.take(k));
    if k < index.len() {
        lemma_linear_offset_prefix(index.drop_last(), strides.drop_last(), k);
        assert(index.drop_last().take(k) =~= index.take(k));
        assert(strides.drop_last().take(k) =~= strides.take(k));
        let a = index.last() as int;
        let b = strides.last();
        assert(a * b >= 0) by (nonlinear_arith)
            requires
                a >= 0,
                b >= 0,
        ;
    } else {
        assert(index.take(k) =~= index);
        assert(strides.take(k) =~= strides);
    }
}

/// Scaling every stride by `c` scales the offset by `c`.
proof fn lemma_scaled_linear_offset(index: Seq<usize>, scaled: Seq<int>, strides: Seq<int>, c: int)
    requires
        scaled.len() == index.len(),
        strides.len() == index.len(),
        forall|k: int| 0 <= k < index.len() ==> #[trigger] scaled[k] == strides[k] * c,
    ensures
        linear_offset(index, scaled) == linear_offset(index, strides) * c,
    decreases index.len(),
{
    if index.len() > 0 {
        lemma_scaled_linear_offset(index.drop_last(), scaled.drop_last(), strides.drop_last(), c);
        let a = index.last() as int;
        let s = strides.last();
        let o = linear_offset(index.drop_last(), strides.drop_last());
        assert(scaled.last() == s * c);
        assert(o * c + a * (s * c) == (o + a * s) * c) by (nonlinear_arith);
    }
}

/// Dropping the last dimension keeps the first strides of a column-major
/// layout; for a row-major one it divides them by the dropped dimension.
proof fn lemma_stride_drop_last(dims: Seq<usize>, order: Order, k: int)
    requires
        0 <= k < dims.len() - 1,
    ensures
        order == Order::ColumnMajor ==> contiguous_stride(dims, order, k) == contiguous_stride(
            dims.drop_last(),
            order,
            k,
        ),
        order == Order::RowMajor ==> contiguous_stride(dims, order, k) == contiguous_stride(
            dims.drop_last(),
            order,
            k,
        ) * (dims.last() as nat),
{
    assert(dims.drop_last().take(k) =~= dims.take(k));
    assert(dims.skip(k + 1).drop_last() =~= dims.drop_last().skip(k + 1));
    assert(dims.skip(k + 1).last() == dims.last());
}

/// The stride vector computes the nested `element_offset` form.
pub proof fn lemma_linear_offset_is_element_offset(
    dims: Seq<usize>,
    order: Order,
    index: Seq<usize>,
)
    requires
        index.len() == dims.len(),
    ensures
        linear_offset(index, stride_seq(dims, order)) == element_offset(dims, order, index),
    decreases dims.len(),
{
    let strides = stride_seq(dims, order);
    if dims.len() > 0 {
        let n = dims.len() - 1;
        let inner = dims.drop_last();
        let inner_index = index.drop_last();
        let inner_strides = stride_seq(inner, order);
        lemma_linear_offset_is_element_offset(inner, order, inner_index);
        match order {
            Order::ColumnMajor => {
                assert forall|k: int| 0 <= k < n implies strides.drop_last()[k]
                    == inner_strides[k] by {
                    lemma_stride_drop_last(dims, order, k);
                }
                assert(strides.drop_last() =~= inner_strides);
                assert(dims.take(n) =~= inner);
                assert(strides.last() == dims_product(inner) as int);
                assert(linear_offset(index, strides) == linear_offset(inner_index, inner_strides)
                    + (index.last() as int) * strides.last());
            },
            Order::RowMajor => {
                let d = dims.last() as int;
                assert forall|k: int| 0 <= k < n implies #[trigger] strides.drop_last()[k]
                    == inner_strides[k] * d by {
                    lemma_stride_drop_last(dims, order, k);
                }
                lemma_scaled_linear_offset(inner_index, strides.drop_last(), inner_strides, d);
                assert(dims.skip(n + 1) =~= Seq::<usize>::empty());
                assert(dims_product(Seq::<usize>::empty()) == 1);
                assert(strides.last() == 1);
                assert(linear_offset(index, strides) == linear_offset(inner_index, strides.drop_last())
                    + (index.last() as int) * strides.last());
            },
        }
    }
}

/// Every in-bounds index of a contiguous layout lands inside the buffer:
/// its flat position is below the element count.
pub proof fn lemma_offset_in_buffer(dims: Seq<usize>, order: Order, index: Seq<usize>)
    requires
        in_bounds(dims, index),
    ensures
        0 <= element_offset(dims, order, index) < dims_product(dims),
    decreases dims.len(),
{
    if dims.len() > 0 {
        let inner = dims.drop_last();
        let inner_index = index.drop_last();
        assert(in_bounds(inner, inner_index)) by {
            assert forall|k: int| 0 <= k < inner.len() implies #[trigger] inner_index[k]
                < inner[k] by {
                assert(index[k] < dims[k]);
            }
        }
        lemma_offset_in_buffer(inner, order, inner_index);
        let o = element_offset(inner, order, inner_index);
        let p = dims_product(inner) as int;
        let d = dims.last() as int;
        let i = index.last() as int;
        assert(i < d) by {
            assert(index[dims.len() - 1] < dims[dims.len() - 1]);
        }
        assert(dims_product(dims) == p * d);
        match order {
            Order::ColumnMajor => {
                assert(0 <= o + i * p < p * d) by (nonlinear_arith)
                    requires
                        0 <= o < p,
                        0 <= i < d,
                ;
            },
            Order::RowMajor => {
                assert(0 <= o * d + i < p * d) by (nonlinear_arith)
                    requires
                        0 <= o < p,
                        0 <= i < d,
                ;
            },
        }
    }
}

/// Two in-bounds indices of a contiguous layout share a flat position only
/// if they are the same index: distinct elements never alias.
pub proof fn lemma_offset_injective(dims: Seq<usize>, order: Order, a: Seq<usize>, b: Seq<usize>)
    requires
        in_bounds(dims, a),
        in_bounds(dims, b),
        element_offset(dims, order, a) == element_offset(dims, order, b),
    ensures
        a == b,
    decreases dims.len(),
{
    if dims.len() == 0 {
        assert(a =~= b);
    } else {
        let n = dims.len() - 1;
        let inner = dims.drop_last();
        let ia = a.drop_last();
        let ib = b.drop_last();
        assert(in_bounds(inner, ia)) by {
            assert forall|k: int| 0 <= k < inner.len() implies #[trigger] ia[k] < inner[k] by {
                assert(a[k] < dims[k]);
            }
        }
        assert(in_bounds(inner, ib)) by {
            assert forall|k: int| 0 <= k < inner.len() implies #[trigger] ib[k] < inner[k] by {
                assert(b[k] < dims[k]);
            }
        }
        lemma_offset_in_buffer(inner, order, ia);
        lemma_offset_in_buffer(inner, order, ib);
        let oa = element_offset(inner, order, ia);
        let ob = element_offset(inner, order, ib);
        let p = dims_product(inner) as int;
        let d = dims.last() as int;
        let la = a.last() as int;
        let lb = b.last() as int;
        assert(la < d && lb < d) by {
            assert(a[n] < dims[n]);
            assert(b[n] < dims[n]);
        }
        match order {
            Order::ColumnMajor => {
                assert(oa + la * p == ob + lb * p);
                assert(oa + p * la == oa + la * p) by (nonlinear_arith);
                assert(ob + p * lb == ob + lb * p) by (nonlinear_arith);
                lemma_fundamental_div_mod_converse(oa + la * p, p, la, oa);
                lemma_fundamental_div_mod_converse(ob + lb * p, p, lb, ob);
            },
            Order::RowMajor => {
                assert(oa * d + la == ob * d + lb);
                assert(d * oa == oa * d) by (nonlinear_arith);
                assert(d * ob == ob * d) by (nonlinear_arith);
                lemma_fundamental_div_mod_converse(oa * d + la, d, oa, la);
                lemma_fundamental_div_mod_converse(ob * d + lb, d, ob, lb);
            },
        }
        assert(oa == ob && la == lb);
        lemma_offset_injective(inner, order, ia, ib);
        assert(a =~= ia.push(a.last()));
        assert(b =~= ib.push(b.last()));
    }
}

/// Every flat position of a contiguous layout holds some element: the
/// index `element_index` recovers lies in bounds and maps back to it.
pub proof fn lemma_offset_onto(dims: Seq<usize>, order: Order, pos: nat)
    requires
        pos < dims_product(dims),
    ensures
        in_bounds(dims, element_index(dims, order, pos)),
        element_offset(dims, order, element_index(dims, order, pos)) == pos,
    decreases dims.len(),
{
    if dims.len() > 0 {
        let inner = dims.drop_last();
        let p = dims_product(inner);
        let d = dims.last() as nat;
        assert(dims_product(dims) == p * d);
        assert(p > 0 && d > 0) by (nonlinear_arith)
            requires
                pos < p * d,
        ;
        let idx = element_index(dims, order, pos);
        match order {
            Order::ColumnMajor => {
                let r = pos % p;
                let q = pos / p;
                lemma_fundamental_div_mod(pos as int, p as int);
                assert(q < d) by (nonlinear_arith)
                    requires
                        pos == p * q + r,
                        0 <= r,
                        pos < p * d,
                        p > 0,
                ;
                lemma_offset_onto(inner, order, r);
                assert(idx == element_index(inner, order, r).push(q as usize));
                assert(idx.drop_last() =~= element_index(inner, order, r));
                assert(q * p == p * q) by (nonlinear_arith);
            },
            Order::RowMajor => {
                let r = pos % d;
                let q = pos / d;
                lemma_fundamental_div_mod(pos as int, d as int);
                assert(q < p) by (nonlinear_arith)
                    requires
                        pos == d * q + r,
                        0 <= r,
                        pos < p * d,
                        d > 0,
                ;
                lemma_offset_onto(inner, order, q);
                assert(idx == element_index(inner, order, q).push(r as usize));
                assert(idx.drop_last() =~= element_index(inner, order, q));
                assert(q * d == d * q) by (nonlinear_arith);
            },
        }
        assert(forall|k: int| 0 <= k < inner.len() ==> idx[k] == idx.drop_last()[k]);
    }
}

/// With fitting strides, the stored stride vector read as integers is the
/// exact stride sequence.
pub proof fn lemma_widen_contiguous(dims: Seq<usize>, order: Order)
    requires
        strides_fit(dims, order),
    ensures
        widen(contiguous_strides_spec(dims, order)) == stride_seq(dims, order),
{
    assert forall|k: int| 0 <= k < dims.len() implies #[trigger] widen(
        contiguous_strides_spec(dims, order),
    )[k] == stride_seq(dims, order)[k] by {
        assert(contiguous_stride(dims, order, k) <= usize::MAX);
    }
    assert(widen(contiguous_strides_spec(dims, order)) =~= stride_seq(dims, order));
}

/// Strides + shape for a dense buffer. Owns no memory: this is pure index
/// arithmetic, shared by owned and borrowed buffers alike.
///
/// A `Layout` is only ever built by `contiguous`, so its strides are always
/// those of the contiguous layout of its shape (see `wf`).
#[derive(Debug, PartialEq, Eq, Hash)]
pub struct Layout {
    shape: Shape,
    strides: Vec<usize>,
    order: Order,
}

impl Clone for Layout {
    fn clone(&self) -> (l: Self)
        ensures
            l.spec_dims() == self.spec_dims(),
            l.spec_strides() == self.spec_strides(),
            l.spec_order() == self.spec_order(),
    {
        let strides = self.strides.clone();
        proof {
            assert(strides@ =~= self.strides@);
        }
        Layout { shape: self.shape.clone(), strides, order: self.order }
    }
}

impl Layout {
    pub closed spec fn spec_dims(&self) -> Seq<usize> {
        self.shape@
    }

    pub closed spec fn spec_strides(&self) -> Seq<usize> {
        self.strides@
    }

    pub closed spec fn spec_order(&self) -> Order {
        self.order
    }

    /// The strides are those of the contiguous layout of the shape in the
    /// layout's order, and each of them fits in a `usize`.
    pub open spec fn wf(&self) -> bool {
        &&& strides_fit(self.spec_dims(), self.spec_order())
        &&& self.spec_strides() == contiguous_strides_spec(self.spec_dims(), self.spec_order())
    }

    /// Flat position of `index` in this layout.
    pub open spec fn spec_offset(&self, index: Seq<usize>) -> int {
        element_offset(self.spec_dims(), self.spec_order(), index)
    }

    /// Contiguous layout for `shape` in the given order.
    pub fn contiguous(shape: Shape, order: Order) -> (l: Self)
        requires
            strides_fit(shape@, order),
        ensures
            l.wf(),
            l.spec_dims() == shape@,
            l.spec_order() == order,
    {
        let strides = Self::contiguous_strides(&shape, order);
        Layout { shape, strides, order }
    }

    pub fn shape(&self) -> (s: &Shape)
        ensures
            s@ == self.spec_dims(),
    {
        &self.shape
    }

    pub fn order(&self) -> (o: Order)
        ensures
            o == self.spec_order(),
    {
        self.order
    }

    pub fn strides(&self) -> (s: &[usize])
        ensures
            s@ == self.spec_strides(),
    {
        self.strides.as_slice()
    }

    /// Flat offset into the backing buffer for a logical index: the sum of
    /// each coordinate times its dimension's stride.
    ///
    /// The index must have the layout's rank and its offset must fit in a
    /// `usize`; bounds are not checked here.
    pub fn offset(&self, index: &[usize]) -> (off: usize)
        requires
            self.wf(),
            index@.len() == self.spec_dims().len(),
            self.spec_offset(index@) <= usize::MAX,
        ensures
            off == self.spec_offset(index@),
            off == linear_offset(index@, widen(self.spec_strides())),
    {
        let ghost dims = self.spec_dims();
        let ghost order = self.spec_order();
        let ghost w = widen(self.strides@);
        proof {
            lemma_widen_contiguous(dims, order);
            lemma_linear_offset_is_element_offset(dims, order, index@);
        }
        let n = index.len();
        let mut acc: usize = 0;
        let mut k: usize = 0;
        assert(index@.take(0) =~= Seq::<usize>::empty());
        while k < n
            invariant
                n == index@.len(),
                n == self.strides@.len(),
                w == widen(self.strides@),
                w.len() == n,
                forall|j: int| 0 <= j < w.len() ==> w[j] >= 0,
                k <= n,
                acc == linear_offset(index@.take(k as int), w.take(k as int)),
                linear_offset(index@, w) <= usize::MAX,
            decreases n - k,
        {
            proof {
                lemma_linear_offset_prefix(index@, w, k + 1);
                lemma_linear_offset_prefix(index@, w, k as int);
                assert(index@.take(k + 1).drop_last() =~= index@.take(k as int));
                assert(w.take(k + 1).drop_last() =~= w.take(k as int));
                assert(w[k as int] == self.strides@[k as int] as int);
            }
            acc = acc + index[k] * self.strides[k];
            k = k + 1;
        }
        assert(index@.take(n as int) =~= index@);
        assert(w.take(n as int) =~= w);
        acc
    }

    fn contiguous_strides(shape: &Shape, order: Order) -> (strides: Vec<usize>)
        requires
            strides_fit(shape@, order),
        ensures
            strides@ == contiguous_strides_spec(shape@, order),
    {
        let dims = shape.dims();
        let n = dims.len();
        let ghost spec = contiguous_strides_spec(dims@, order);
        let mut strides: Vec<usize> = Vec::new();
        let mut k: usize = 0;
        while k < n
            invariant
                k <= n,
                strides@.len() == k,
                forall|j: int| 0 <= j < k ==> strides@[j] == 1,
            decreases n - k,
        {
            strides.push(1);
            k = k + 1;
        }
        match order {
            Order::RowMajor => {
                // Last dimension varies fastest.
                if n > 0 {
                    let mut i: usize = n - 1;
                    proof {
                        assert(dims@.skip(n as int) =~= Seq::<usize>::empty());
                    }
                    while i > 0
                        invariant
                            n == dims@.len(),
                            spec == contiguous_strides_spec(dims@, order),
                            order == Order::RowMajor,
                            strides_fit(dims@, order),
                            0 <= i < n,
                            strides@.len() == n,
                            forall|j: int| i <= j < n ==> strides@[j] == spec[j],
                            forall|j: int| 0 <= j < i ==> strides@[j] == 1,
                        decreases i,
                    {
                        proof {
                            let tail = dims@.skip(i as int);
                            lemma_product_first(tail);
                            assert(tail.drop_first() =~= dims@.skip(i + 1));
                            assert(dims@.skip(i as int) =~= tail);
                            assert(contiguous_stride(dims@, order, i - 1) <= usize::MAX);
                            assert(contiguous_stride(dims@, order, i as int) <= usize::MAX);
                            assert(tail[0] == dims@[i as int]);
                            assert(contiguous_stride(dims@, order, i - 1) == dims_product(tail));
                            assert(contiguous_stride(dims@, order, i as int) == dims_product(
                                dims@.skip(i + 1),
                            ));
                            assert(spec[i as int] as nat == contiguous_stride(dims@, order, i as int));
                            assert(spec[i - 1] as nat == contiguous_stride(dims@, order, i - 1));
                            assert(contiguous_stride(dims@, order, i - 1) == (dims@[i as int] as nat)
                                * contiguous_stride(dims@, order, i as int));
                            let a = dims@[i as int] as nat;
                            let b = contiguous_stride(dims@, order, i as int);
                            assert(a * b == b * a) by (nonlinear_arith);
                            assert((strides@[i as int] as nat) * (dims@[i as int] as nat)
                                == contiguous_stride(dims@, order, i - 1));
                        }
                        let s = strides[i] * dims[i];
                        strides.set(i - 1, s);
                        i = i - 1;
                    }
                }
            },
            Order::ColumnMajor => {
                // First dimension varies fastest.
                if n > 0 {
                    proof {
                        assert(dims@.take(0) =~= Seq::<usize>::empty());
                    }
                }
                let mut i: usize = 1;
                while i < n
                    invariant
                        n == dims@.len(),
                        spec == contiguous_strides_spec(dims@, order),
                        order == Order::ColumnMajor,
                        strides_fit(dims@, order),
                        1 <= i,
                        strides@.len() == n,
                        forall|j: int| 0 <= j < i && j < n ==> strides@[j] == spec[j],
                        forall|j: int| i <= j < n ==> strides@[j] == 1,
                    decreases n - i,
                {
                    proof {
                        lemma_product_take_step(dims@, i - 1);
                        assert(contiguous_stride(dims@, order, i as int) <= usize::MAX);
                        assert(contiguous_stride(dims@, order, i - 1) <= usize::MAX);
                        assert(spec[i as int] as nat == contiguous_stride(dims@, order, i as int));
                        assert(spec[i - 1] as nat == contiguous_stride(dims@, order, i - 1));
                        assert(contiguous_stride(dims@, order, i as int) == contiguous_stride(
                            dims@,
                            order,
                            i - 1,
                        ) * (dims@[i - 1] as nat));
                    }
                    let s = strides[i - 1] * dims[i - 1];
                    strides.set(i, s);
                    i = i + 1;
                }
            },
        }
        assert(strides@ =~= spec);
        strides
    }
}

/// The strides of a contiguous layout: in row-major order the last
/// dimension moves fastest (stride 1) and each stride is the next one times
/// the next dimension; in column-major order the first dimension moves
/// fastest (stride 1) and each stride is the previous one times the
/// previous dimension.
pub proof fn law_contiguous_strides(shape: Shape, order: Order, l: Layout)
    requires
        call_ensures(Layout::contiguous, (shape, order), l),
    ensures
        l.spec_strides().len() == shape@.len(),
        order == Order::RowMajor ==> {
            &&& shape@.len() > 0 ==> l.spec_strides()[shape@.len() - 1] == 1
            &&& forall|k: int|
                0 <= k < shape@.len() - 1 ==> #[trigger] l.spec_strides()[k] == l.spec_strides()[k
                    + 1] * shape@[k + 1]
        },
        order == Order::ColumnMajor ==> {
            &&& shape@.len() > 0 ==> l.spec_strides()[0] == 1
            &&& forall|k: int|
                0 <= k < shape@.len() - 1 ==> #[trigger] l.spec_strides()[k + 1] == l.spec_strides()[k]
                    * shape@[k]
        },
{
    let dims = shape@;
    let n = dims.len() as int;
    let st = l.spec_strides();
    assert(st == contiguous_strides_spec(dims, order));
    assert forall|k: int| 0 <= k < n implies #[trigger] st[k] as int == contiguous_stride(
        dims,
        order,
        k,
    ) by {
        assert(contiguous_stride(dims, order, k) <= usize::MAX);
    }
    match order {
        Order::RowMajor => {
            if n > 0 {
                assert(dims.skip(n) =~= Seq::<usize>::empty());
                assert(st[n - 1] as int == contiguous_stride(dims, order, n - 1));
            }
            assert forall|k: int| 0 <= k < n - 1 implies #[trigger] st[k] == st[k + 1] * dims[k
                + 1] by {
                lemma_product_first(dims.skip(k + 1));
                assert(dims.skip(k + 1).drop_first() =~= dims.skip(k + 2));
                assert(dims.skip(k + 1)[0] == dims[k + 1]);
                assert(st[k] as int == contiguous_stride(dims, order, k));
                assert(st[k + 1] as int == contiguous_stride(dims, order, k + 1));
                let a = dims[k + 1] as int;
                let b = dims_product(dims.skip(k + 2)) as int;
                assert(a * b == b * a) by (nonlinear_arith);
            }
        },
        Order::ColumnMajor => {
            if n > 0 {
                assert(dims.take(0) =~= Seq::<usize>::empty());
                assert(st[0] as int == contiguous_stride(dims, order, 0));
            }
            assert forall|k: int| 0 <= k < n - 1 implies #[trigger] st[k + 1] == st[k] * dims[k] by {
                lemma_product_take_step(dims, k);
                assert(st[k] as int == contiguous_stride(dims, order, k));
                assert(st[k + 1] as int == contiguous_stride(dims, order, k + 1));
            }
        },
    }
}

/// In a `rows x cols` layout, element `(i, j)` sits at `i + j * rows` in
/// column-major order and at `i * cols + j` in row-major order.
pub proof fn law_matrix_offset(l: Layout, i: usize, j: usize)
    requires
        l.spec_dims().len() == 2,
    ensures
        l.spec_order() == Order::ColumnMajor ==> l.spec_offset(seq![i, j]) == i + j
            * l.spec_dims()[0],
        l.spec_order() == Order::RowMajor ==> l.spec_offset(seq![i, j]) == i * l.spec_dims()[1]
            + j,
{
    let dims = l.spec_dims();
    let index = seq![i, j];
    let order = l.spec_order();
    let inner = dims.drop_last();
    let first = index.drop_last();
    assert(inner =~= seq![dims[0]]);
    assert(first =~= seq![i]);
    assert(inner.drop_last() =~= Seq::<usize>::empty());
    assert(first.drop_last() =~= Seq::<usize>::empty());
    assert(element_offset(inner.drop_last(), order, first.drop_last()) == 0);
    assert(dims_product(inner.drop_last()) == 1);
    assert(inner.last() == dims[0]);
    assert(first.last() == i);
    assert(inner.len() == 1);
    assert(dims_product(inner) == dims_product(inner.drop_last()) * (inner.last() as nat));
    assert(dims_product(inner) == dims[0] as nat);
    assert(element_offset(inner, order, first) == match order {
        Order::ColumnMajor => element_offset(inner.drop_last(), order, first.drop_last()) + (
        first.last() as int) * (dims_product(inner.drop_last()) as int),
        Order::RowMajor => element_offset(inner.drop_last(), order, first.drop_last()) * (
        inner.last() as int) + (first.last() as int),
    });
    assert(0 * (inner.last() as int) == 0);
    assert((first.last() as int) * 1 == i as int);
    assert(element_offset(inner, order, first) == i as int);
    assert(dims.last() == dims[1]);
    assert(index.last() == j);
}

} // verus!
