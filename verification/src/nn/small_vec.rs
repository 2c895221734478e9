//! The inline-first vector that stores tensor layouts.

use tinyvec::TinyVec;
use vstd::prelude::*;

verus! {

/// A `tinyvec::TinyVec` of up to eight inline `usize` values; longer contents
/// move to the heap.
#[verifier::external_body]
pub struct SmallVec {
    inner: TinyVec<[usize; 8]>,
}

/// The elements held by a [`SmallVec`], in order.
pub uninterp spec fn small_elems(v: SmallVec) -> Seq<usize>;

/// `TinyVec::with_capacity`: a vector without elements, whatever the capacity asked for.
#[verifier::external_body]
pub(crate) fn small_with_capacity(cap: usize) -> (v: SmallVec)
    ensures
        small_elems(v) == Seq::<usize>::empty(),
{
    SmallVec { inner: TinyVec::with_capacity(cap) }
}

/// `TinyVec::push`: appends `val` and keeps what was there; it spills to the
/// heap instead of failing when the inline array is full.
#[verifier::external_body]
pub(crate) fn small_push(v: &mut SmallVec, val: usize)
    ensures
        small_elems(*final(v)) == small_elems(*old(v)).push(val),
{
    v.inner.push(val)
}

/// `TinyVec::as_slice`: the elements as a slice.
#[verifier::external_body]
pub(crate) fn small_as_slice(v: &SmallVec) -> (s: &[usize])
    ensures
        s@ == small_elems(*v),
{
    v.inner.as_slice()
}

/// `TinyVec::clone`: a vector with the same elements.
#[verifier::external_body]
pub(crate) fn small_clone(v: &SmallVec) -> (c: SmallVec)
    ensures
        small_elems(c) == small_elems(*v),
{
    SmallVec { inner: v.inner.clone() }
}

/// `TinyVec::from` a slice: a vector with the elements of `slice`, in order.
#[verifier::external_body]
pub(crate) fn small_from_slice(slice: &[usize]) -> (v: SmallVec)
    ensures
        small_elems(v) == slice@,
{
    SmallVec { inner: TinyVec::from(slice) }
}

/// Assignment through `TinyVec`'s `IndexMut`: replaces the element at `index`,
/// which must exist, and keeps the others.
#[verifier::external_body]
pub(crate) fn small_set(v: &mut SmallVec, index: usize, val: usize)
    requires
        index < small_elems(*old(v)).len(),
    ensures
        small_elems(*final(v)) == small_elems(*old(v)).update(index as int, val),
{
    v.inner[index] = val;
}

} // verus!
