//! Shape and strides of a tensor or of a view into one.

use crate::nn::shape::{
    element_count, lemma_sub_shape_fits, lemma_suffix_count_sub_shape, shape_fits, stride,
    sub_shape, suffix_count,
};
use crate::nn::small_vec::{
    small_as_slice, small_clone, small_elems, small_from_slice, small_push, small_set,
    small_with_capacity, SmallVec,
};
use vstd::prelude::*;
use vstd::slice::slice_subrange;

verus! {

/// The shape of a tensor followed by its row-major strides, in one vector.
pub struct Layout {
    dims: SmallVec,
}

/// Tells whether every stride of `shape`, and its element count, can be held
/// in a `usize`.
pub fn fits(shape: &[usize]) -> (fitting: bool)
    ensures
        fitting == shape_fits(shape@),
{
    let mut count: usize = 1;
    let mut j: usize = shape.len();
    while j > 0
        invariant
            j <= shape@.len(),
            count == suffix_count(shape@, j as int),
            forall|k: int| j <= k <= shape@.len() ==> #[trigger] suffix_count(shape@, k) <= usize::MAX,
        decreases j,
    {
        j -= 1;
        assert(shape@[j as int] * count == count * shape@[j as int]) by (nonlinear_arith);
        match count.checked_mul(shape[j]) {
            Some(product) => {
                count = product;
            },
            None => {
                assert(suffix_count(shape@, j as int) > usize::MAX);
                return false;
            },
        }
    }
    true
}

impl Layout {
    /// The shape: the number of entries in each dimension.
    pub closed spec fn dims(&self) -> Seq<usize> {
        small_elems(self.dims).subrange(0, (small_elems(self.dims).len() / 2) as int)
    }

    /// The stored strides, one for each dimension.
    pub closed spec fn strides(&self) -> Seq<usize> {
        small_elems(self.dims).subrange(
            (small_elems(self.dims).len() / 2) as int,
            small_elems(self.dims).len() as int,
        )
    }

    /// The stored strides are the row-major strides of the shape, and all of
    /// them fit.
    pub closed spec fn wf(&self) -> bool {
        &&& small_elems(self.dims).len() % 2 == 0
        &&& shape_fits(self.dims())
        &&& forall|j: int|
            0 <= j < self.dims().len() ==> #[trigger] self.strides()[j] == stride(self.dims(), j)
    }

    /// What a well-formed layout holds.
    pub proof fn lemma_wf(&self)
        requires
            self.wf(),
        ensures
            shape_fits(self.dims()),
            self.strides().len() == self.dims().len(),
            forall|j: int|
                0 <= j < self.dims().len() ==> #[trigger] self.strides()[j] == stride(
                    self.dims(),
                    j,
                ),
    {
    }

    /// Computes the row-major layout of `shape`.
    pub fn from_shape(shape: &[usize]) -> (layout: Layout)
        requires
            shape_fits(shape@),
        ensures
            layout.wf(),
            layout.dims() == shape@,
    {
        let n = shape.len();
        let mut vec = small_from_slice(shape);
        let mut i: usize = 0;
        while i < n
            invariant
                i <= n,
                n == shape@.len(),
                small_elems(vec).len() == n + i,
                small_elems(vec).subrange(0, n as int) == shape@,
            decreases n - i,
        {
            small_push(&mut vec, 0);
            i += 1;
        }
        let filled = small_as_slice(&vec).len();
        assert(filled == 2 * n);

        // compute strides
        let mut stride: usize = 1;
        let mut j: usize = n;
        while j > 0
            invariant
                j <= n,
                n == shape@.len(),
                2 * n <= usize::MAX,
                shape_fits(shape@),
                small_elems(vec).len() == 2 * n,
                small_elems(vec).subrange(0, n as int) == shape@,
                stride == suffix_count(shape@, j as int),
                forall|k: int|
                    j <= k < n ==> #[trigger] small_elems(vec)[n + k] == suffix_count(
                        shape@,
                        k + 1,
                    ),
            decreases j,
        {
            j -= 1;
            let ghost before = small_elems(vec);
            small_set(&mut vec, n + j, stride);
            assert(small_elems(vec).subrange(0, n as int) =~= before.subrange(0, n as int));
            assert(stride * shape@[j as int] == suffix_count(shape@, j as int)) by {
                let d = shape@[j as int] as nat;
                let r = stride as nat;
                assert(r * d == d * r) by (nonlinear_arith);
            }
            assert(suffix_count(shape@, j as int) <= usize::MAX);
            stride = stride * shape[j];
        }
        let layout = Layout { dims: vec };
        assert(layout.dims() =~= shape@);
        assert forall|k: int| 0 <= k < layout.dims().len() implies #[trigger] layout.strides()[k]
            == crate::nn::shape::stride(layout.dims(), k) by {
            assert(layout.strides()[k] == small_elems(vec)[n + k]);
        }
        layout
    }

    /// Returns the shape.
    pub fn shape(&self) -> (shape: &[usize])
        ensures
            shape@ == self.dims(),
    {
        let all = small_as_slice(&self.dims);
        slice_subrange(all, 0, all.len() / 2)
    }

    /// Returns the strides, one for each dimension.
    pub fn stride_slice(&self) -> (strides: &[usize])
        ensures
            strides@ == self.strides(),
    {
        let all = small_as_slice(&self.dims);
        slice_subrange(all, all.len() / 2, all.len())
    }

    /// Returns the number of elements that the layout spans.
    pub fn element_count(&self) -> (count: usize)
        requires
            self.wf(),
        ensures
            count == element_count(self.dims()),
    {
        let shape = self.shape();
        if shape.len() == 0 {
            1
        } else {
            let strides = self.stride_slice();
            assert(strides@[0] == stride(self.dims(), 0));
            assert(suffix_count(self.dims(), 0) <= usize::MAX);
            assert(shape@[0] * strides@[0] == suffix_count(self.dims(), 0));
            shape[0] * strides[0]
        }
    }

    /// Returns the layout of the part that is left when the first `num`
    /// dimensions are indexed away.
    pub fn remove_prefix(&self, num: usize) -> (layout: Layout)
        requires
            self.wf(),
            num <= self.dims().len(),
        ensures
            layout.wf(),
            layout.dims() == sub_shape(self.dims(), num as int),
    {
        let shape = self.shape();
        let strides = self.stride_slice();
        let rank = shape.len();
        let mut vec = small_with_capacity(rank - num);
        let mut i: usize = num;
        while i < rank
            invariant
                num <= i <= rank,
                rank == shape@.len(),
                small_elems(vec) == shape@.subrange(num as int, i as int),
            decreases rank - i,
        {
            let ghost before = small_elems(vec);
            small_push(&mut vec, shape[i]);
            assert(small_elems(vec) =~= shape@.subrange(num as int, i + 1));
            i += 1;
        }
        let mut i: usize = num;
        while i < rank
            invariant
                num <= i <= rank,
                rank == shape@.len(),
                rank == strides@.len(),
                small_elems(vec) == shape@.subrange(num as int, rank as int) + strides@.subrange(
                    num as int,
                    i as int,
                ),
            decreases rank - i,
        {
            small_push(&mut vec, strides[i]);
            assert(small_elems(vec) =~= shape@.subrange(num as int, rank as int)
                + strides@.subrange(num as int, i + 1));
            i += 1;
        }
        let layout = Layout { dims: vec };
        proof {
            assert(layout.dims() =~= sub_shape(self.dims(), num as int));
            lemma_sub_shape_fits(self.dims(), num as int);
            assert forall|k: int| 0 <= k < layout.dims().len() implies #[trigger] layout.strides()[k]
                == stride(layout.dims(), k) by {
                assert(layout.strides()[k] == strides@[num + k]);
                assert(self.strides()[num + k] == stride(self.dims(), num + k));
                lemma_suffix_count_sub_shape(self.dims(), num as int, k + 1);
            }
        }
        layout
    }

    /// Returns a layout equal to this one.
    pub fn duplicate(&self) -> (layout: Layout)
        ensures
            layout.dims() == self.dims(),
            layout.strides() == self.strides(),
            layout.wf() == self.wf(),
    {
        Layout { dims: small_clone(&self.dims) }
    }
}

} // verus!
