use vstd::prelude::*;

verus! {

/// Product of a list of dimensions (1 for the empty list).
pub open spec fn dims_product(dims: Seq<usize>) -> nat
    decreases dims.len(),
{
    if dims.len() == 0 {
        1
    } else {
        dims_product(dims.drop_last()) * (dims.last() as nat)
    }
}

/// Every running product `d[0] * ... * d[k-1]` fits in a `usize`, so the
/// element count can be computed left to right without overflow.
pub open spec fn count_fits(dims: Seq<usize>) -> bool {
    forall|k: int| 0 <= k <= dims.len() ==> #[trigger] dims_product(dims.take(k)) <= usize::MAX
}

/// `dims_product` of a concatenation is the product of the parts.
pub proof fn lemma_product_concat(a: Seq<usize>, b: Seq<usize>)
    ensures
        dims_product(a + b) == dims_product(a) * dims_product(b),
    decreases b.len(),
{
    if b.len() == 0 {
        assert(a + b =~= a);
        assert(dims_product(b) == 1);
        assert(dims_product(a + b) == dims_product(a));
    } else {
        lemma_product_concat(a, b.drop_last());
        assert((a + b).drop_last() =~= a + b.drop_last());
        assert((a + b).last() == b.last());
        assert(dims_product(a + b) == dims_product(a + b.drop_last()) * (b.last() as nat));
        let pa = dims_product(a);
        let pb = dims_product(b.drop_last());
        let x = b.last() as nat;
        assert(dims_product(b) == pb * x);
        assert(dims_product(a + b.drop_last()) == pa * pb);
        assert(pa * pb * x == pa * (pb * x)) by (nonlinear_arith);
        assert(dims_product(a + b) == pa * pb * x);
    }
}

/// Peeling the first dimension off a product.
pub proof fn lemma_product_first(dims: Seq<usize>)
    requires
        dims.len() > 0,
    ensures
        dims_product(dims) == (dims[0] as nat) * dims_product(dims.drop_first()),
{
    lemma_product_concat(dims.take(1), dims.drop_first());
    assert(dims.take(1) + dims.drop_first() =~= dims);
    assert(dims.take(1).drop_last() =~= Seq::<usize>::empty());
    assert(dims.take(1).last() == dims[0]);
    assert(dims_product(Seq::<usize>::empty()) == 1);
    assert(dims_product(dims.take(1)) == dims_product(Seq::<usize>::empty()) * (dims[0] as nat));
    assert(dims_product(dims.take(1)) == dims[0] as nat);
}

/// Extending a prefix by one dimension multiplies the product by it.
pub proof fn lemma_product_take_step(dims: Seq<usize>, k: int)
    requires
        0 <= k < dims.len(),
    ensures
        dims_product(dims.take(k + 1)) == dims_product(dims.take(k)) * (dims[k] as nat),
{
    assert(dims.take(k + 1).drop_last() =~= dims.take(k));
}

/// Logical dimensions of a tensor-like object, independent of how it is
/// laid out in memory.
///
/// Rank 1 (vector) and rank 2 (matrix) are the shapes in use today, but any
/// rank can be expressed.
#[derive(Debug, PartialEq, Eq, Hash)]
pub struct Shape(Vec<usize>);

impl View for Shape {
    type V = Seq<usize>;

    closed spec fn view(&self) -> Seq<usize> {
        self.0@
    }
}

impl Clone for Shape {
    fn clone(&self) -> (s: Self)
        ensures
            s@ == self@,
    {
        Shape(self.0.clone())
    }
}

impl Shape {
    pub fn new<D: Into<Vec<usize>>>(dims: D) -> (s: Self)
        ensures
            exists|v: Vec<usize>| #[trigger] call_ensures(D::into, (dims,), v) && s@ == v@,
    {
        let v: Vec<usize> = dims.into();
        assert(call_ensures(D::into, (dims,), v));
        Shape(v)
    }

    /// The rank-0 shape.
    pub fn scalar() -> (s: Self)
        ensures
            s@ == Seq::<usize>::empty(),
    {
        Shape(Vec::new())
    }

    pub fn vector(len: usize) -> (s: Self)
        ensures
            s@ == seq![len],
    {
        let mut v: Vec<usize> = Vec::new();
        v.push(len);
        Shape(v)
    }

    pub fn matrix(rows: usize, cols: usize) -> (s: Self)
        ensures
            s@ == seq![rows, cols],
    {
        let mut v: Vec<usize> = Vec::new();
        v.push(rows);
        v.push(cols);
        Shape(v)
    }

    pub fn rank(&self) -> (r: usize)
        ensures
            r == self@.len(),
    {
        self.0.len()
    }

    pub fn dims(&self) -> (d: &[usize])
        ensures
            d@ == self@,
    {
        self.0.as_slice()
    }

    /// Total element count: the product of all dimensions (1 for a scalar,
    /// the empty product).
    pub fn element_count(&self) -> (n: usize)
        requires
            count_fits(self@),
        ensures
            n == dims_product(self@),
    {
        let dims = &self.0;
        let mut acc: usize = 1;
        let mut k: usize = 0;
        assert(dims@.take(0) =~= Seq::<usize>::empty());
        while k < dims.len()
            invariant
                k <= dims@.len(),
                count_fits(dims@),
                acc as nat == dims_product(dims@.take(k as int)),
            decreases dims@.len() - k,
        {
            proof {
                lemma_product_take_step(dims@, k as int);
                assert(dims_product(dims@.take(k + 1)) <= usize::MAX);
            }
            acc = acc * dims[k];
            k = k + 1;
        }
        assert(dims@.take(k as int) =~= dims@);
        acc
    }

    pub fn rows(&self) -> (r: Option<usize>)
        ensures
            r == (if self@.len() > 0 { Some(self@[0]) } else { None::<usize> }),
    {
        if self.0.len() > 0 {
            Some(self.0[0])
        } else {
            None
        }
    }

    pub fn cols(&self) -> (c: Option<usize>)
        ensures
            c == (if self@.len() > 1 { Some(self@[1]) } else { None::<usize> }),
    {
        if self.0.len() > 1 {
            Some(self.0[1])
        } else {
            None
        }
    }
}

} // verus!
