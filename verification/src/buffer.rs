use vstd::prelude::*;

use crate::error::CoreError;
use crate::layout::{in_bounds, lemma_offset_in_buffer, lemma_offset_injective, Layout};
use crate::shape::{count_fits, dims_product};

verus! {

/// Owned, strided storage for a single element type `T`.
///
/// `Buffer` owns its memory, unlike `Layout`, which is pure index math. Its
/// data always holds exactly one element per logical index of its layout.
#[derive(Debug)]
pub struct Buffer<T> {
    data: Vec<T>,
    layout: Layout,
}

impl<T> View for Buffer<T> {
    type V = Seq<T>;

    closed spec fn view(&self) -> Seq<T> {
        self.data@
    }
}

impl<T: Clone> Clone for Buffer<T> {
    /// Same layout; every element is a clone of the corresponding one.
    fn clone(&self) -> (b: Self)
        ensures
            b.spec_layout().spec_dims() == self.spec_layout().spec_dims(),
            b.spec_layout().spec_strides() == self.spec_layout().spec_strides(),
            b.spec_layout().spec_order() == self.spec_layout().spec_order(),
            b@.len() == self@.len(),
            self.wf() ==> b.wf(),
            forall|i: int| 0 <= i < self@.len() ==> cloned(self@[i], #[trigger] b@[i]),
    {
        Buffer { data: self.data.clone(), layout: self.layout.clone() }
    }
}

impl<T> Buffer<T> {
    pub closed spec fn spec_layout(&self) -> Layout {
        self.layout
    }

    /// The layout is well formed and the data has one element per index.
    pub open spec fn wf(&self) -> bool {
        &&& self.spec_layout().wf()
        &&& self@.len() == dims_product(self.spec_layout().spec_dims())
    }
}

impl<T: Clone + Default> Buffer<T> {
    /// Buffer matching `layout`'s element count, every element a copy of
    /// `T::default()`.
    pub fn zeros(layout: Layout) -> (b: Self)
        requires
            layout.wf(),
            count_fits(layout.spec_dims()),
        ensures
            b.wf(),
            b.spec_layout() == layout,
            exists|z: T|
                #![trigger call_ensures(T::default, (), z)]
                call_ensures(T::default, (), z) && forall|i: int|
                    0 <= i < b@.len() ==> cloned(z, #[trigger] b@[i]),
    {
        let n = layout.shape().element_count();
        let z = T::default();
        let data = vec![z; n];
        assert(call_ensures(T::default, (), z));
        Buffer { data, layout }
    }
}

impl<T> Buffer<T> {
    /// Wraps `data` as the storage of `layout`; refused unless the length
    /// is exactly the layout's element count.
    pub fn from_vec(data: Vec<T>, layout: Layout) -> (r: Result<Self, CoreError>)
        requires
            layout.wf(),
            count_fits(layout.spec_dims()),
        ensures
            match r {
                Ok(b) => {
                    &&& data@.len() == dims_product(layout.spec_dims())
                    &&& b.wf()
                    &&& b@ == data@
                    &&& b.spec_layout() == layout
                },
                Err(e) => {
                    &&& data@.len() != dims_product(layout.spec_dims())
                    &&& e matches CoreError::BufferLengthMismatch { shape, expected, actual }
                    &&& shape@ == layout.spec_dims()
                    &&& expected == dims_product(layout.spec_dims())
                    &&& actual == data@.len()
                },
            },
    {
        let expected = layout.shape().element_count();
        if data.len() != expected {
            return Err(
                CoreError::BufferLengthMismatch {
                    shape: layout.shape().clone(),
                    expected,
                    actual: data.len(),
                },
            );
        }
        Ok(Buffer { data, layout })
    }

    pub fn layout(&self) -> (l: &Layout)
        ensures
            *l == self.spec_layout(),
    {
        &self.layout
    }

    pub fn as_slice(&self) -> (s: &[T])
        ensures
            s@ == self@,
    {
        self.data.as_slice()
    }

    pub fn as_mut_slice(&mut self) -> (s: &mut [T])
        ensures
            s@ == old(self)@,
            final(s)@ == final(self)@,
            final(self).spec_layout() == old(self).spec_layout(),
    {
        self.data.as_mut_slice()
    }

    /// The element stored at logical `index`.
    ///
    /// The index must have the layout's rank and its flat offset must lie
    /// inside the buffer; every in-bounds index qualifies (see
    /// `layout::lemma_offset_in_buffer`).
    pub fn get(&self, index: &[usize]) -> (v: &T)
        requires
            self.wf(),
            index@.len() == self.spec_layout().spec_dims().len(),
            self.spec_layout().spec_offset(index@) < self@.len(),
        ensures
            *v == self@[self.spec_layout().spec_offset(index@)],
    {
        proof {
            assert(self.data@.len() == self.data.len());
        }
        let off = self.layout.offset(index);
        &self.data[off]
    }

    /// Mutable access to the element stored at logical `index`; the same
    /// conditions as `get` apply.
    pub fn get_mut(&mut self, index: &[usize]) -> (v: &mut T)
        requires
            old(self).wf(),
            index@.len() == old(self).spec_layout().spec_dims().len(),
            old(self).spec_layout().spec_offset(index@) < old(self)@.len(),
        ensures
            *v == old(self)@[old(self).spec_layout().spec_offset(index@)],
            final(self)@ == old(self)@.update(
                old(self).spec_layout().spec_offset(index@),
                *final(v),
            ),
            final(self).spec_layout() == old(self).spec_layout(),
            final(self).wf(),
    {
        proof {
            assert(self.data@.len() == self.data.len());
        }
        let off = self.layout.offset(index);
        &mut self.data[off]
    }
}

/// What a read gives back after a write: once `value` is written at the
/// in-bounds index `written` (as `get_mut` does), reading the in-bounds
/// index `read` yields `value` if it is the same index and the element
/// stored there before otherwise. Both indices address elements inside the
/// data, so `get` and `get_mut` accept them.
pub proof fn lemma_write_then_read<T>(
    before: Buffer<T>,
    after: Buffer<T>,
    written: Seq<usize>,
    value: T,
    read: Seq<usize>,
)
    requires
        before.wf(),
        in_bounds(before.spec_layout().spec_dims(), written),
        in_bounds(before.spec_layout().spec_dims(), read),
        after.spec_layout() == before.spec_layout(),
        after@ == before@.update(before.spec_layout().spec_offset(written), value),
    ensures
        0 <= before.spec_layout().spec_offset(written) < before@.len(),
        0 <= before.spec_layout().spec_offset(read) < before@.len(),
        after.wf(),
        after@[after.spec_layout().spec_offset(read)] == (if read == written {
            value
        } else {
            before@[before.spec_layout().spec_offset(read)]
        }),
{
    let l = before.spec_layout();
    lemma_offset_in_buffer(l.spec_dims(), l.spec_order(), written);
    lemma_offset_in_buffer(l.spec_dims(), l.spec_order(), read);
    if read != written && l.spec_offset(read) == l.spec_offset(written) {
        lemma_offset_injective(l.spec_dims(), l.spec_order(), read, written);
    }
}

} // verus!
