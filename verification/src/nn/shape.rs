//! The arithmetic of row-major tensor shapes: element counts, strides and
//! flat offsets, with the lemmas the tensor code relies on.

use vstd::arithmetic::div_mod::lemma_fundamental_div_mod_converse;
use vstd::prelude::*;

verus! {

/// The number of elements spanned by the dimensions `from..` of `shape`: the
/// product of those dimensions, which is 1 when there are none.
pub open spec fn suffix_count(shape: Seq<usize>, from: int) -> nat
    decreases shape.len() - from,
{
    if 0 <= from < shape.len() {
        shape[from] as nat * suffix_count(shape, from + 1)
    } else {
        1
    }
}

/// The number of elements of a tensor of the given shape.
pub open spec fn element_count(shape: Seq<usize>) -> nat {
    suffix_count(shape, 0)
}

/// The row-major stride of dimension `dim`: the distance between two elements
/// whose indices differ by one in that dimension only.
pub open spec fn stride(shape: Seq<usize>, dim: int) -> nat {
    suffix_count(shape, dim + 1)
}

/// Every stride of `shape`, and its element count, can be held in a `usize`.
pub open spec fn shape_fits(shape: Seq<usize>) -> bool {
    forall|j: int| 0 <= j <= shape.len() ==> #[trigger] suffix_count(shape, j) <= usize::MAX
}

/// `indices` addresses a prefix of the dimensions of `shape`, each index
/// within its dimension.
pub open spec fn in_bounds(shape: Seq<usize>, indices: Seq<usize>) -> bool {
    &&& indices.len() <= shape.len()
    &&& forall|j: int| 0 <= j < indices.len() ==> #[trigger] indices[j] < shape[j]
}

/// `indices` addresses exactly one element of a tensor of shape `shape`.
pub open spec fn is_element(shape: Seq<usize>, indices: Seq<usize>) -> bool {
    indices.len() == shape.len() && in_bounds(shape, indices)
}

/// The weighted sum of the first `n` indices: `indices[j] * stride(shape, j)`
/// summed over `j < n`.
pub open spec fn offset_upto(shape: Seq<usize>, indices: Seq<usize>, n: int) -> nat
    decreases n,
{
    if n <= 0 {
        0
    } else {
        offset_upto(shape, indices, n - 1) + indices[n - 1] as nat * stride(shape, n - 1)
    }
}

/// The position, in the flat row-major data, at which the part of the tensor
/// selected by `indices` begins.
pub open spec fn offset(shape: Seq<usize>, indices: Seq<usize>) -> nat {
    offset_upto(shape, indices, indices.len() as int)
}

/// The shape left after the first `n` dimensions have been indexed away.
pub open spec fn sub_shape(shape: Seq<usize>, n: int) -> Seq<usize> {
    shape.subrange(n, shape.len() as int)
}

/// The elements selected by indexing a prefix of the dimensions of a tensor
/// with shape `shape` and flat data `elems`.
pub open spec fn sub_elems<T>(shape: Seq<usize>, elems: Seq<T>, indices: Seq<usize>) -> Seq<T> {
    elems.subrange(
        offset(shape, indices) as int,
        (offset(shape, indices) + suffix_count(shape, indices.len() as int)) as int,
    )
}

/// The counts of a shape whose leading dimensions were removed are counts of
/// the whole shape.
pub proof fn lemma_suffix_count_sub_shape(shape: Seq<usize>, n: int, from: int)
    requires
        0 <= n <= shape.len(),
        0 <= from,
    ensures
        suffix_count(sub_shape(shape, n), from) == suffix_count(shape, n + from),
    decreases shape.len() - n - from,
{
    if from < shape.len() - n {
        lemma_suffix_count_sub_shape(shape, n, from + 1);
    }
}

/// A shape that fits still fits once leading dimensions are removed.
pub proof fn lemma_sub_shape_fits(shape: Seq<usize>, n: int)
    requires
        0 <= n <= shape.len(),
        shape_fits(shape),
    ensures
        shape_fits(sub_shape(shape, n)),
{
    assert forall|j: int| 0 <= j <= sub_shape(shape, n).len() implies #[trigger] suffix_count(
        sub_shape(shape, n),
        j,
    ) <= usize::MAX by {
        lemma_suffix_count_sub_shape(shape, n, j);
        assert(suffix_count(shape, n + j) <= usize::MAX);
    }
}

/// A count is zero exactly when one of its dimensions is zero.
pub proof fn lemma_suffix_count_zero(shape: Seq<usize>, from: int)
    requires
        0 <= from,
    ensures
        suffix_count(shape, from) == 0 <==> exists|j: int|
            from <= j < shape.len() && #[trigger] shape[j] == 0,
    decreases shape.len() - from,
{
    if from < shape.len() {
        lemma_suffix_count_zero(shape, from + 1);
        let rest = suffix_count(shape, from + 1);
        let d = shape[from] as nat;
        assert(d * rest == 0 <==> (d == 0 || rest == 0)) by (nonlinear_arith);
        if suffix_count(shape, from) == 0 {
            if d == 0 {
                assert(from <= from < shape.len() && shape[from] == 0);
            } else {
                let j = choose|j: int| from + 1 <= j < shape.len() && #[trigger] shape[j] == 0;
                assert(from <= j < shape.len() && shape[j] == 0);
            }
        }
        if exists|j: int| from <= j < shape.len() && #[trigger] shape[j] == 0 {
            let j = choose|j: int| from <= j < shape.len() && #[trigger] shape[j] == 0;
            if j != from {
                assert(from + 1 <= j < shape.len() && shape[j] == 0);
            }
        }
    }
}

/// The offset only depends on the indices it sums.
pub proof fn lemma_offset_agrees(shape: Seq<usize>, a: Seq<usize>, b: Seq<usize>, n: int)
    requires
        forall|j: int| 0 <= j < n ==> a[j] == b[j],
    ensures
        offset_upto(shape, a, n) == offset_upto(shape, b, n),
    decreases n,
{
    if n > 0 {
        lemma_offset_agrees(shape, a, b, n - 1);
    }
}

/// The part selected by a prefix of indices lies inside the part selected by
/// none: `offset + count of the rest <= count of everything`.
pub proof fn lemma_offset_bound(shape: Seq<usize>, indices: Seq<usize>, n: int)
    requires
        in_bounds(shape, indices),
        0 <= n <= indices.len(),
    ensures
        offset_upto(shape, indices, n) + suffix_count(shape, n) <= element_count(shape),
    decreases n,
{
    if n > 0 {
        lemma_offset_bound(shape, indices, n - 1);
        let i = indices[n - 1] as nat;
        let d = shape[n - 1] as nat;
        let s = suffix_count(shape, n);
        assert(i * s + s <= d * s) by (nonlinear_arith)
            requires
                i < d,
        ;
    }
}

/// Changing one index moves the offset by the change times that dimension's
/// stride.
pub proof fn lemma_offset_update(
    shape: Seq<usize>,
    indices: Seq<usize>,
    n: int,
    dim: int,
    value: usize,
)
    requires
        0 <= dim < indices.len(),
        0 <= n <= indices.len(),
    ensures
        dim < n ==> offset_upto(shape, indices.update(dim, value), n) + indices[dim] as nat
            * stride(shape, dim) == offset_upto(shape, indices, n) + value as nat * stride(
            shape,
            dim,
        ),
        dim >= n ==> offset_upto(shape, indices.update(dim, value), n) == offset_upto(
            shape,
            indices,
            n,
        ),
    decreases n,
{
    if n > 0 {
        lemma_offset_update(shape, indices, n - 1, dim, value);
    }
}

/// An index made of zeros selects the first element.
pub proof fn lemma_offset_zero(shape: Seq<usize>, indices: Seq<usize>, n: int)
    requires
        0 <= n <= indices.len(),
        forall|j: int| 0 <= j < n ==> indices[j] == 0,
    ensures
        offset_upto(shape, indices, n) == 0,
    decreases n,
{
    if n > 0 {
        lemma_offset_zero(shape, indices, n - 1);
        assert(0 * stride(shape, n - 1) == 0) by (nonlinear_arith);
    }
}

/// Indexing with `a` and then with `b` reaches the offset that indexing with
/// `a + b` reaches at once.
pub proof fn lemma_offset_concat(shape: Seq<usize>, a: Seq<usize>, b: Seq<usize>, n: int)
    requires
        a.len() <= shape.len(),
        0 <= n <= b.len(),
    ensures
        offset_upto(shape, a + b, a.len() + n) == offset(shape, a) + offset_upto(
            sub_shape(shape, a.len() as int),
            b,
            n,
        ),
    decreases n,
{
    if n == 0 {
        lemma_offset_agrees(shape, a + b, a, a.len() as int);
    } else {
        lemma_offset_concat(shape, a, b, n - 1);
        lemma_suffix_count_sub_shape(shape, a.len() as int, n);
        assert((a + b)[a.len() + n - 1] == b[n - 1]);
    }
}

/// Without its last dimension, every count of a shape is divided by that
/// dimension.
pub proof fn lemma_suffix_count_drop_last(shape: Seq<usize>, from: int)
    requires
        shape.len() > 0,
        0 <= from < shape.len(),
    ensures
        suffix_count(shape, from) == suffix_count(shape.drop_last(), from) * shape.last() as nat,
    decreases shape.len() - from,
{
    let front = shape.drop_last();
    let d = shape.last() as nat;
    if from == shape.len() - 1 {
        assert(suffix_count(shape, from + 1) == 1);
        assert(suffix_count(front, from) == 1);
        assert(d * 1 == 1 * d) by (nonlinear_arith);
    } else {
        lemma_suffix_count_drop_last(shape, from + 1);
        let x = shape[from] as nat;
        let r = suffix_count(front, from + 1);
        assert(front[from] == shape[from]);
        assert(x * (r * d) == (x * r) * d) by (nonlinear_arith);
    }
}

/// The offset of all indices but the last is a multiple of the last
/// dimension: the offset in the shape without it, times that dimension.
pub proof fn lemma_offset_drop_last(shape: Seq<usize>, indices: Seq<usize>, n: int)
    requires
        shape.len() > 0,
        0 <= n < shape.len(),
        n <= indices.len(),
    ensures
        offset_upto(shape, indices, n) == offset_upto(shape.drop_last(), indices, n)
            * shape.last() as nat,
    decreases n,
{
    let d = shape.last() as nat;
    if n == 0 {
        assert(0 * d == 0) by (nonlinear_arith);
    } else {
        lemma_offset_drop_last(shape, indices, n - 1);
        lemma_suffix_count_drop_last(shape, n);
        let i = indices[n - 1] as nat;
        let o = offset_upto(shape.drop_last(), indices, n - 1);
        let s = suffix_count(shape.drop_last(), n);
        assert(o * d + i * (s * d) == (o + i * s) * d) by (nonlinear_arith);
    }
}

/// Two indices of elements with the same offset are the same index.
pub proof fn lemma_offset_injective(shape: Seq<usize>, a: Seq<usize>, b: Seq<usize>)
    requires
        is_element(shape, a),
        is_element(shape, b),
        offset(shape, a) == offset(shape, b),
    ensures
        a == b,
    decreases shape.len(),
{
    if shape.len() == 0 {
        assert(a =~= b);
    } else {
        let n = shape.len() - 1;
        let d = shape.last() as int;
        let front = shape.drop_last();
        lemma_offset_drop_last(shape, a, n);
        lemma_offset_drop_last(shape, b, n);
        assert(stride(shape, n) == 1);
        let oa = offset_upto(front, a, n) as int;
        let ob = offset_upto(front, b, n) as int;
        let total = offset(shape, a) as int;
        assert(a[n] as nat * 1 == a[n]) by (nonlinear_arith);
        assert(b[n] as nat * 1 == b[n]) by (nonlinear_arith);
        assert(total == oa * d + a[n]);
        assert(total == ob * d + b[n]);
        lemma_fundamental_div_mod_converse(total, d, oa, a[n] as int);
        lemma_fundamental_div_mod_converse(total, d, ob, b[n] as int);
        lemma_offset_agrees(front, a, a.drop_last(), n);
        lemma_offset_agrees(front, b, b.drop_last(), n);
        lemma_offset_injective(front, a.drop_last(), b.drop_last());
        assert(a =~= a.drop_last().push(a[n]));
        assert(b =~= b.drop_last().push(b[n]));
    }
}

} // verus!
