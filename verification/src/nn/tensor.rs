//! Dense tensors in row-major order and borrowed views into them.

use crate::nn::indices::ShapeIndices;
use crate::nn::layout::{fits, Layout};
use crate::nn::shape::{
    element_count, in_bounds, is_element, lemma_offset_bound, lemma_offset_injective, offset,
    offset_upto, shape_fits, stride, sub_elems, sub_shape, suffix_count,
};
use vstd::prelude::*;
use vstd::slice::slice_subrange;
use vstd::std_specs::convert::FromSpecImpl;

verus! {

/// A dynamically sized tensor: a shape and, for each index within it, one
/// value, stored contiguously with the last dimension varying fastest.
///
/// A tensor does not change once it has been built. Its parts are reached
/// through [`TensorView`]s.
pub struct Tensor<T> {
    layout: Layout,
    data: Vec<T>,
}

/// A borrowed view into a [`Tensor`]: the part that is left when a prefix of
/// the tensor's dimensions has been indexed away.
pub struct TensorView<'a, T> {
    layout: Layout,
    data: &'a [T],
}

/// Adds up `indices[j] * stride[j]`: the place in the flat data at which the
/// part selected by `indices` begins.
fn locate(layout: &Layout, indices: &[usize]) -> (start: usize)
    requires
        layout.wf(),
        in_bounds(layout.dims(), indices@),
    ensures
        start == offset(layout.dims(), indices@),
        start + suffix_count(layout.dims(), indices@.len() as int) <= element_count(layout.dims()),
        element_count(layout.dims()) <= usize::MAX,
{
    let strides = layout.stride_slice();
    let ghost dims = layout.dims();
    proof {
        layout.lemma_wf();
        assert(suffix_count(dims, 0) <= usize::MAX);
    }
    let mut start: usize = 0;
    let mut j: usize = 0;
    while j < indices.len()
        invariant
            j <= indices@.len(),
            indices@.len() <= dims.len(),
            strides@.len() == dims.len(),
            in_bounds(dims, indices@),
            element_count(dims) <= usize::MAX,
            forall|k: int| 0 <= k < dims.len() ==> #[trigger] strides@[k] == stride(dims, k),
            start == offset_upto(dims, indices@, j as int),
        decreases indices@.len() - j,
    {
        proof {
            lemma_offset_bound(dims, indices@, j + 1);
            assert(strides@[j as int] == stride(dims, j as int));
        }
        start = start + indices[j] * strides[j];
        j += 1;
    }
    proof {
        lemma_offset_bound(dims, indices@, indices@.len() as int);
    }
    start
}

/// Copies an index of `N` entries into an array.
fn to_array<const N: usize>(index: &[usize]) -> (array: [usize; N])
    requires
        index@.len() == N,
    ensures
        array@ == index@,
{
    let mut array: [usize; N] = [0; N];
    let mut j: usize = 0;
    while j < N
        invariant
            j <= N,
            index@.len() == N,
            forall|k: int| 0 <= k < j ==> array@[k] == index@[k],
        decreases N - j,
    {
        array[j] = index[j];
        j += 1;
    }
    assert(array@ =~= index@);
    array
}

impl<T> Tensor<T> {
    /// The shape: the number of entries in each dimension.
    pub closed spec fn dims(&self) -> Seq<usize> {
        self.layout.dims()
    }

    /// The values, in memory order: the value of the element with index `i`
    /// is at `offset(self.dims(), i)`.
    pub closed spec fn elems(&self) -> Seq<T> {
        self.data@
    }

    /// The tensor holds one value for each index within its shape.
    pub closed spec fn wf(&self) -> bool {
        &&& self.layout.wf()
        &&& self.data@.len() == element_count(self.layout.dims())
    }

    /// A well-formed tensor has as many values as its shape has elements,
    /// and that number fits.
    pub proof fn lemma_wf(&self)
        requires
            self.wf(),
        ensures
            self.elems().len() == element_count(self.dims()),
            shape_fits(self.dims()),
    {
        self.layout.lemma_wf();
    }

    /// Creates a tensor of the given shape by calling `f` for each element.
    ///
    /// `f` is called with successive indices to fill, starting with
    /// `[0, ..., 0, 0]`, then `[0, ..., 0, 1]` and so on; it is not called
    /// when a dimension is zero, and once, with the empty index, when there
    /// are no dimensions.
    pub fn from_array_shape_fn<const N: usize, F: FnMut([usize; N]) -> T>(
        shape: [usize; N],
        mut f: F,
    ) -> (tensor: Self)
        requires
            shape_fits(shape@),
            forall|index: [usize; N]| is_element(shape@, index@) ==> call_requires(f, (index,)),
        ensures
            tensor.wf(),
            tensor.dims() == shape@,
            tensor.elems().len() == element_count(shape@),
            forall|index: [usize; N]|
                is_element(shape@, index@) ==> #[trigger] call_ensures(
                    f,
                    (index,),
                    tensor.elems()[offset(shape@, index@) as int],
                ),
    {
        let layout = Layout::from_shape(shape.as_slice());
        let mut indices = ShapeIndices::new(shape.as_slice());
        let mut data: Vec<T> = Vec::with_capacity(layout.element_count());
        let ghost f0 = f;
        proof {
            indices.lemma_position_bound();
        }
        loop
            invariant_except_break
                indices.wf(),
                indices.dims() == shape@,
                indices.position() == data@.len(),
                data@.len() <= element_count(shape@),
                forall|index: [usize; N]|
                    is_element(shape@, index@) ==> call_requires(f, (index,)),
                forall|index: [usize; N]|
                    is_element(shape@, index@) && offset(shape@, index@) < data@.len()
                        ==> #[trigger] call_ensures(
                        f,
                        (index,),
                        data@[offset(shape@, index@) as int],
                    ),
            invariant
                f == f0,
            ensures
                data@.len() == element_count(shape@),
                forall|index: [usize; N]|
                    is_element(shape@, index@) && offset(shape@, index@) < data@.len()
                        ==> #[trigger] call_ensures(
                        f,
                        (index,),
                        data@[offset(shape@, index@) as int],
                    ),
            decreases element_count(shape@) - data@.len(),
        {
            match indices.next() {
                Some(index) => {
                    let ghost before = data@;
                    let array: [usize; N] = to_array(index);
                    let value = f(array);
                    data.push(value);
                    proof {
                        assert forall|other: [usize; N]|
                            is_element(shape@, other@) && offset(shape@, other@)
                                < data@.len() implies #[trigger] call_ensures(
                            f,
                            (other,),
                            data@[offset(shape@, other@) as int],
                        ) by {
                            if offset(shape@, other@) < before.len() {
                                assert(data@[offset(shape@, other@) as int] == before[offset(
                                    shape@,
                                    other@,
                                ) as int]);
                            } else {
                                lemma_offset_injective(shape@, other@, array@);
                                assert(other =~= array);
                            }
                        }
                    }
                },
                None => {
                    break ;
                },
            }
        }
        proof {
            assert forall|index: [usize; N]| is_element(shape@, index@) implies offset(
                shape@,
                index@,
            ) < data@.len() by {
                lemma_offset_bound(shape@, index@, N as int);
            }
        }
        Self { layout, data }
    }

    /// Creates a tensor with a number of dimensions that is only known at
    /// run time, by calling `f` for each element in memory order.
    pub fn from_dyn_shape_fn<F: FnMut(&[usize]) -> T>(shape: &[usize], mut f: F) -> (tensor: Self)
        requires
            shape_fits(shape@),
            forall|index: &[usize]| is_element(shape@, index@) ==> call_requires(f, (index,)),
        ensures
            tensor.wf(),
            tensor.dims() == shape@,
            tensor.elems().len() == element_count(shape@),
            forall|index: &[usize]|
                is_element(shape@, index@) ==> #[trigger] call_ensures(
                    f,
                    (index,),
                    tensor.elems()[offset(shape@, index@) as int],
                ),
    {
        let layout = Layout::from_shape(shape);
        let mut indices = ShapeIndices::new(shape);
        let mut data: Vec<T> = Vec::with_capacity(layout.element_count());
        let ghost f0 = f;
        proof {
            indices.lemma_position_bound();
        }
        loop
            invariant_except_break
                indices.wf(),
                indices.dims() == shape@,
                indices.position() == data@.len(),
                data@.len() <= element_count(shape@),
                forall|index: &[usize]|
                    is_element(shape@, index@) ==> call_requires(f, (index,)),
                forall|index: &[usize]|
                    is_element(shape@, index@) && offset(shape@, index@) < data@.len()
                        ==> #[trigger] call_ensures(
                        f,
                        (index,),
                        data@[offset(shape@, index@) as int],
                    ),
            invariant
                f == f0,
            ensures
                data@.len() == element_count(shape@),
                forall|index: &[usize]|
                    is_element(shape@, index@) && offset(shape@, index@) < data@.len()
                        ==> #[trigger] call_ensures(
                        f,
                        (index,),
                        data@[offset(shape@, index@) as int],
                    ),
            decreases element_count(shape@) - data@.len(),
        {
            match indices.next() {
                Some(index) => {
                    let ghost before = data@;
                    let value = f(index);
                    data.push(value);
                    proof {
                        assert forall|other: &[usize]|
                            is_element(shape@, other@) && offset(shape@, other@)
                                < data@.len() implies #[trigger] call_ensures(
                            f,
                            (other,),
                            data@[offset(shape@, other@) as int],
                        ) by {
                            if offset(shape@, other@) < before.len() {
                                assert(data@[offset(shape@, other@) as int] == before[offset(
                                    shape@,
                                    other@,
                                ) as int]);
                            } else {
                                lemma_offset_injective(shape@, other@, index@);
                                assert(other =~= index);
                            }
                        }
                    }
                },
                None => {
                    break ;
                },
            }
        }
        proof {
            assert forall|index: &[usize]| is_element(shape@, index@) implies offset(
                shape@,
                index@,
            ) < data@.len() by {
                lemma_offset_bound(shape@, index@, shape@.len() as int);
            }
        }
        Self { layout, data }
    }

    /// Returns the shape of this tensor: the number of entries in each
    /// dimension.
    pub fn shape(&self) -> (shape: &[usize])
        ensures
            shape@ == self.dims(),
    {
        self.layout.shape()
    }

    /// Returns the number of dimensions of this tensor.
    pub fn rank(&self) -> (rank: usize)
        ensures
            rank == self.dims().len(),
    {
        self.layout.shape().len()
    }

    /// Returns a view of the whole tensor.
    pub fn view(&self) -> (view: TensorView<'_, T>)
        ensures
            view.dims() == self.dims(),
            view.elems() == self.elems(),
            view.wf() == self.wf(),
    {
        TensorView { layout: self.layout.duplicate(), data: self.data.as_slice() }
    }

    /// Indexes a prefix of the tensor's dimensions with `indices`.
    ///
    /// Indexing a tensor of shape `[2, 3, 4, 5]` with two indices gives a view
    /// of shape `[4, 5]`; with four, a view of shape `[]`, a single value;
    /// with none, a view of the whole tensor.
    pub fn index<const N: usize>(&self, indices: [usize; N]) -> (view: TensorView<'_, T>)
        requires
            self.wf(),
            in_bounds(self.dims(), indices@),
        ensures
            view.wf(),
            view.dims() == sub_shape(self.dims(), N as int),
            view.elems() == sub_elems(self.dims(), self.elems(), indices@),
    {
        let start = locate(&self.layout, indices.as_slice());
        let layout = self.layout.remove_prefix(N);
        proof {
            crate::nn::shape::lemma_suffix_count_sub_shape(self.dims(), N as int, 0);
        }
        let count = layout.element_count();
        TensorView { layout, data: slice_subrange(self.data.as_slice(), start, start + count) }
    }

    /// Returns the views of the outermost dimension, in order: a tensor of
    /// shape `[3, 4, 5]` gives three views of shape `[4, 5]`.
    pub fn iter(&self) -> (views: Vec<TensorView<'_, T>>)
        requires
            self.wf(),
            self.dims().len() > 0,
        ensures
            views@.len() == self.dims()[0],
            forall|i: int|
                0 <= i < views@.len() ==> {
                    &&& (#[trigger] views@[i]).wf()
                    &&& views@[i].dims() == sub_shape(self.dims(), 1)
                    &&& views@[i].elems() == sub_elems(
                        self.dims(),
                        self.elems(),
                        seq![i as usize],
                    )
                },
    {
        let count = self.layout.shape()[0];
        let mut views: Vec<TensorView<'_, T>> = Vec::new();
        let mut i: usize = 0;
        while i < count
            invariant
                i <= count,
                count == self.dims()[0],
                self.wf(),
                self.dims().len() > 0,
                views@.len() == i,
                forall|k: int|
                    0 <= k < i ==> {
                        &&& (#[trigger] views@[k]).wf()
                        &&& views@[k].dims() == sub_shape(self.dims(), 1)
                        &&& views@[k].elems() == sub_elems(
                            self.dims(),
                            self.elems(),
                            seq![k as usize],
                        )
                    },
            decreases count - i,
        {
            let index: [usize; 1] = [i];
            assert(index@ =~= seq![i]);
            let view = self.index(index);
            views.push(view);
            i += 1;
        }
        views
    }

    /// Returns all values of the tensor in memory order, whatever its
    /// shape.
    pub fn data(&self) -> (values: &[T])
        ensures
            values@ == self.elems(),
    {
        self.data.as_slice()
    }

    /// Returns the values stored in a 1-dimensional tensor as a slice.
    pub fn as_slice(&self) -> (values: &[T])
        requires
            self.dims().len() == 1,
        ensures
            values@ == self.elems(),
    {
        self.data.as_slice()
    }
}

impl<T: Copy> Tensor<T> {
    /// Creates a 0-dimensional tensor that holds `value`.
    pub fn from_scalar(value: T) -> (tensor: Self)
        ensures
            tensor.wf(),
            tensor.dims() == Seq::<usize>::empty(),
            tensor.elems() == seq![value],
    {
        let shape: [usize; 0] = [];
        assert(shape@ =~= Seq::<usize>::empty());
        assert(shape_fits(shape@)) by {
            reveal_with_fuel(suffix_count, 2);
        }
        let layout = Layout::from_shape(shape.as_slice());
        let mut data: Vec<T> = Vec::new();
        data.push(value);
        assert(data@ =~= seq![value]);
        Self { layout, data }
    }

    /// Creates a tensor of the given shape that holds `values`, which are
    /// taken in memory order. Returns `None` where the shape does not fit or
    /// has another number of elements than there are values.
    pub fn from_values(shape: &[usize], values: &[T]) -> (result: Option<Self>)
        ensures
            result is Some <==> shape_fits(shape@) && element_count(shape@) == values@.len(),
            result matches Some(tensor) ==> {
                &&& tensor.wf()
                &&& tensor.dims() == shape@
                &&& tensor.elems() == values@
            },
    {
        if !fits(shape) {
            return None;
        }
        let layout = Layout::from_shape(shape);
        if layout.element_count() != values.len() {
            return None;
        }
        let mut data: Vec<T> = Vec::with_capacity(values.len());
        let mut i: usize = 0;
        while i < values.len()
            invariant
                i <= values@.len(),
                data@ == values@.subrange(0, i as int),
            decreases values@.len() - i,
        {
            data.push(values[i]);
            assert(data@ =~= values@.subrange(0, i + 1));
            i += 1;
        }
        assert(data@ =~= values@);
        Some(Self { layout, data })
    }

    /// Creates a 1-dimensional tensor that holds the values of `values`.
    pub fn from_slice(values: &[T]) -> (tensor: Self)
        ensures
            tensor.wf(),
            tensor.dims() == seq![values@.len() as usize],
            tensor.elems() == values@,
    {
        let shape: [usize; 1] = [values.len()];
        assert(shape@ =~= seq![values@.len() as usize]);
        assert(shape_fits(shape@) && element_count(shape@) == values@.len()) by {
            reveal_with_fuel(suffix_count, 3);
            assert(shape@[0] * 1 == shape@[0]) by (nonlinear_arith);
        }
        let layout = Layout::from_shape(shape.as_slice());
        let mut data: Vec<T> = Vec::with_capacity(values.len());
        let mut i: usize = 0;
        while i < values.len()
            invariant
                i <= values@.len(),
                data@ == values@.subrange(0, i as int),
            decreases values@.len() - i,
        {
            data.push(values[i]);
            assert(data@ =~= values@.subrange(0, i + 1));
            i += 1;
        }
        assert(data@ =~= values@);
        Self { layout, data }
    }

    /// Returns the value stored in a 0-dimensional tensor.
    pub fn as_singular(&self) -> (value: T)
        requires
            self.wf(),
            self.dims().len() == 0,
        ensures
            self.elems().len() == 1,
            value == self.elems()[0],
    {
        self.data[0]
    }
}

impl<T: Copy> Clone for Tensor<T> {
    /// Returns a tensor of the same shape with the same values.
    fn clone(&self) -> (tensor: Self)
        ensures
            tensor.dims() == self.dims(),
            tensor.elems() == self.elems(),
            tensor.wf() == self.wf(),
    {
        let mut data: Vec<T> = Vec::with_capacity(self.data.len());
        let mut i: usize = 0;
        while i < self.data.len()
            invariant
                i <= self.data@.len(),
                data@ == self.data@.subrange(0, i as int),
            decreases self.data@.len() - i,
        {
            data.push(self.data[i]);
            assert(data@ =~= self.data@.subrange(0, i + 1));
            i += 1;
        }
        assert(data@ =~= self.data@);
        Tensor { layout: self.layout.duplicate(), data }
    }
}

impl<'d, T> Clone for TensorView<'d, T> {
    /// Returns a view of the same part of the same tensor.
    fn clone(&self) -> (view: Self)
        ensures
            view.dims() == self.dims(),
            view.elems() == self.elems(),
            view.wf() == self.wf(),
    {
        TensorView { layout: self.layout.duplicate(), data: self.data }
    }
}

impl<'a, T: Copy> From<&'a [T]> for Tensor<T> {
    /// Creates a 1-dimensional tensor that holds the values of `values`.
    fn from(values: &'a [T]) -> (tensor: Self)
        ensures
            tensor.wf(),
            tensor.dims() == seq![values@.len() as usize],
            tensor.elems() == values@,
    {
        Tensor::from_slice(values)
    }
}

impl<'a, T: Copy> FromSpecImpl<&'a [T]> for Tensor<T> {
    open spec fn obeys_from_spec() -> bool {
        false
    }

    open spec fn from_spec(values: &'a [T]) -> Self {
        arbitrary()
    }
}

impl<T: Copy, const N: usize> From<[T; N]> for Tensor<T> {
    /// Creates a 1-dimensional tensor that holds the values of `values`.
    fn from(values: [T; N]) -> (tensor: Self)
        ensures
            tensor.wf(),
            tensor.dims() == seq![N],
            tensor.elems() == values@,
    {
        Tensor::from_slice(values.as_slice())
    }
}

impl<T: Copy, const N: usize> FromSpecImpl<[T; N]> for Tensor<T> {
    open spec fn obeys_from_spec() -> bool {
        false
    }

    open spec fn from_spec(values: [T; N]) -> Self {
        arbitrary()
    }
}

impl<'d, T> TensorView<'d, T> {
    /// The shape: the number of entries in each dimension.
    pub closed spec fn dims(&self) -> Seq<usize> {
        self.layout.dims()
    }

    /// The values, in memory order.
    pub closed spec fn elems(&self) -> Seq<T> {
        self.data@
    }

    /// The view holds one value for each index within its shape.
    pub closed spec fn wf(&self) -> bool {
        &&& self.layout.wf()
        &&& self.data@.len() == element_count(self.layout.dims())
    }

    /// A well-formed view has as many values as its shape has elements, and
    /// that number fits.
    pub proof fn lemma_wf(&self)
        requires
            self.wf(),
        ensures
            self.elems().len() == element_count(self.dims()),
            shape_fits(self.dims()),
    {
        self.layout.lemma_wf();
    }

    /// Returns the shape of this view: the number of entries in each
    /// dimension.
    pub fn shape(&self) -> (shape: &[usize])
        ensures
            shape@ == self.dims(),
    {
        self.layout.shape()
    }

    /// Returns the number of dimensions of this view.
    pub fn rank(&self) -> (rank: usize)
        ensures
            rank == self.dims().len(),
    {
        self.layout.shape().len()
    }

    /// Indexes a prefix of the view's dimensions with `indices`; with no
    /// index, the result is a copy of the view.
    pub fn index<const N: usize>(&self, indices: [usize; N]) -> (view: TensorView<'d, T>)
        requires
            self.wf(),
            in_bounds(self.dims(), indices@),
        ensures
            view.wf(),
            view.dims() == sub_shape(self.dims(), N as int),
            view.elems() == sub_elems(self.dims(), self.elems(), indices@),
    {
        let start = locate(&self.layout, indices.as_slice());
        let layout = self.layout.remove_prefix(N);
        proof {
            crate::nn::shape::lemma_suffix_count_sub_shape(self.dims(), N as int, 0);
        }
        let count = layout.element_count();
        TensorView { layout, data: slice_subrange(self.data, start, start + count) }
    }

    /// Returns the views of the outermost dimension, in order.
    pub fn iter(&self) -> (views: Vec<TensorView<'d, T>>)
        requires
            self.wf(),
            self.dims().len() > 0,
        ensures
            views@.len() == self.dims()[0],
            forall|i: int|
                0 <= i < views@.len() ==> {
                    &&& (#[trigger] views@[i]).wf()
                    &&& views@[i].dims() == sub_shape(self.dims(), 1)
                    &&& views@[i].elems() == sub_elems(
                        self.dims(),
                        self.elems(),
                        seq![i as usize],
                    )
                },
    {
        let count = self.layout.shape()[0];
        let mut views: Vec<TensorView<'d, T>> = Vec::new();
        let mut i: usize = 0;
        while i < count
            invariant
                i <= count,
                count == self.dims()[0],
                self.wf(),
                self.dims().len() > 0,
                views@.len() == i,
                forall|k: int|
                    0 <= k < i ==> {
                        &&& (#[trigger] views@[k]).wf()
                        &&& views@[k].dims() == sub_shape(self.dims(), 1)
                        &&& views@[k].elems() == sub_elems(
                            self.dims(),
                            self.elems(),
                            seq![k as usize],
                        )
                    },
            decreases count - i,
        {
            let index: [usize; 1] = [i];
            assert(index@ =~= seq![i]);
            let view = self.index(index);
            views.push(view);
            i += 1;
        }
        views
    }

    /// Returns all values of the view in memory order, whatever its shape.
    pub fn data(&self) -> (values: &'d [T])
        ensures
            values@ == self.elems(),
    {
        self.data
    }

    /// Returns the values of a 1-dimensional view as a slice.
    pub fn as_slice(&self) -> (values: &'d [T])
        requires
            self.dims().len() == 1,
        ensures
            values@ == self.elems(),
    {
        self.data
    }
}

impl<'d, T: Copy> TensorView<'d, T> {
    /// Returns the value of a 0-dimensional view.
    pub fn as_singular(&self) -> (value: T)
        requires
            self.wf(),
            self.dims().len() == 0,
        ensures
            self.elems().len() == 1,
            value == self.elems()[0],
    {
        self.data[0]
    }
}

/// Indexing with `a` and then indexing the result with `b` selects the same
/// shape and the same values as indexing once with `a` followed by `b`.
pub proof fn lemma_index_composes<T>(
    dims: Seq<usize>,
    elems: Seq<T>,
    a: Seq<usize>,
    b: Seq<usize>,
)
    requires
        elems.len() == element_count(dims),
        in_bounds(dims, a),
        in_bounds(sub_shape(dims, a.len() as int), b),
    ensures
        in_bounds(dims, a + b),
        sub_shape(sub_shape(dims, a.len() as int), b.len() as int) == sub_shape(
            dims,
            (a + b).len() as int,
        ),
        sub_elems(sub_shape(dims, a.len() as int), sub_elems(dims, elems, a), b) == sub_elems(
            dims,
            elems,
            a + b,
        ),
{
    let n = a.len() as int;
    let m = b.len() as int;
    let inner = sub_shape(dims, n);
    assert(in_bounds(dims, a + b)) by {
        assert forall|j: int| 0 <= j < (a + b).len() implies #[trigger] (a + b)[j] < dims[j] by {
            if j >= n {
                assert(b[j - n] < inner[j - n]);
            }
        }
    }
    assert(sub_shape(inner, m) =~= sub_shape(dims, n + m));
    crate::nn::shape::lemma_offset_concat(dims, a, b, m);
    crate::nn::shape::lemma_suffix_count_sub_shape(dims, n, m);
    crate::nn::shape::lemma_suffix_count_sub_shape(dims, n, 0);
    lemma_offset_bound(dims, a, n);
    lemma_offset_bound(inner, b, m);
    lemma_offset_bound(dims, a + b, n + m);
    assert(sub_elems(inner, sub_elems(dims, elems, a), b) =~= sub_elems(dims, elems, a + b));
}

} // verus!
