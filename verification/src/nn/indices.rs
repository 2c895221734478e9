//! Enumeration of the indices of a shape in memory order.

use crate::nn::shape::{
    element_count, is_element, lemma_offset_bound, lemma_offset_injective, lemma_offset_update,
    lemma_offset_zero, lemma_suffix_count_zero, offset, stride, suffix_count,
};
use vstd::prelude::*;

verus! {

/// Walks the indices of the elements of a shape in lexicographic order, the
/// last dimension varying fastest: the order in which row-major data is laid
/// out.
pub struct ShapeIndices {
    shape: Vec<usize>,
    last: Vec<usize>,
    first: bool,
    done: bool,
}

/// Each value of `vals` but the first is what `f` returned for the value
/// before it and the index whose offset is that value's place after `from`.
pub open spec fn is_fold_chain<V, F: FnMut(V, &[usize]) -> V>(
    f: F,
    dims: Seq<usize>,
    from: nat,
    vals: Seq<V>,
) -> bool {
    forall|k: int, idx: &[usize]|
        0 <= k < vals.len() - 1 && is_element(dims, idx@) && offset(dims, idx@) == from + k
            ==> #[trigger] call_ensures(f, (vals[k], idx), vals[k + 1])
}

impl ShapeIndices {
    /// The shape whose indices are walked.
    pub closed spec fn dims(&self) -> Seq<usize> {
        self.shape@
    }

    /// How many indices have been handed out.
    pub closed spec fn position(&self) -> nat {
        if self.first {
            0
        } else if self.done {
            element_count(self.shape@)
        } else {
            offset(self.shape@, self.last@) + 1
        }
    }

    /// The index handed out last is an element's index, unless none was
    /// handed out yet or the walk is over.
    pub closed spec fn wf(&self) -> bool {
        &&& self.last@.len() == self.shape@.len()
        &&& self.first ==> !self.done && forall|j: int|
            0 <= j < self.last@.len() ==> self.last@[j] == 0
        &&& !self.first && !self.done ==> is_element(self.shape@, self.last@)
    }

    /// No more indices are handed out than the shape has elements.
    pub proof fn lemma_position_bound(&self)
        requires
            self.wf(),
        ensures
            self.position() <= element_count(self.dims()),
    {
        if !self.first && !self.done {
            lemma_offset_bound(self.shape@, self.last@, self.last@.len() as int);
        }
    }

    /// Starts a walk over the indices of `shape`.
    pub fn new(shape: &[usize]) -> (indices: Self)
        ensures
            indices.wf(),
            indices.dims() == shape@,
            indices.position() == 0,
    {
        let mut dims: Vec<usize> = Vec::new();
        let mut last: Vec<usize> = Vec::new();
        let mut i: usize = 0;
        while i < shape.len()
            invariant
                i <= shape@.len(),
                dims@ == shape@.subrange(0, i as int),
                last@.len() == i,
                forall|j: int| 0 <= j < i ==> last@[j] == 0,
            decreases shape@.len() - i,
        {
            dims.push(shape[i]);
            last.push(0);
            assert(dims@ =~= shape@.subrange(0, i + 1));
            i += 1;
        }
        assert(dims@ =~= shape@);
        Self { shape: dims, last, first: true, done: false }
    }

    /// Hands out the next index, or `None` once every element's index has
    /// been handed out. The index handed out is the one whose offset is the
    /// number of indices handed out before it.
    pub fn next(&mut self) -> (index: Option<&[usize]>)
        requires
            old(self).wf(),
        ensures
            final(self).wf(),
            final(self).dims() == old(self).dims(),
            old(self).position() < element_count(old(self).dims()) ==> {
                &&& index matches Some(idx)
                &&& is_element(old(self).dims(), idx@)
                &&& offset(old(self).dims(), idx@) == old(self).position()
                &&& final(self).position() == old(self).position() + 1
            },
            old(self).position() >= element_count(old(self).dims()) ==> {
                &&& index is None
                &&& final(self).position() == old(self).position()
            },
    {
        if self.done {
            return None;
        }
        let n = self.shape.len();
        if self.first {
            self.first = false;
            let mut has_zero = false;
            let mut i: usize = 0;
            while i < n
                invariant
                    i <= n,
                    n == self.shape@.len(),
                    has_zero <==> exists|j: int| 0 <= j < i && #[trigger] self.shape@[j] == 0,
                decreases n - i,
            {
                if self.shape[i] == 0 {
                    has_zero = true;
                }
                i += 1;
            }
            proof {
                lemma_suffix_count_zero(self.shape@, 0);
                lemma_offset_zero(self.shape@, self.last@, n as int);
            }
            if has_zero {
                self.done = true;
                return None;
            } else {
                return Some(self.last.as_slice());
            }
        }
        let ghost start = self.last@;
        let ghost reached = offset(self.shape@, start);
        proof {
            lemma_offset_bound(self.shape@, start, n as int);
        }
        let mut has_next = false;
        let mut j: usize = n;
        while j > 0
            invariant_except_break
                !has_next,
                forall|i: int| j <= i < n ==> self.last@[i] == 0,
                offset(self.shape@, self.last@) + suffix_count(self.shape@, j as int) == reached
                    + 1,
            invariant
                j <= n,
                n == self.shape@.len(),
                self.last@.len() == n,
                self.shape@ == old(self).shape@,
                !self.first,
                !self.done,
                is_element(self.shape@, start),
                forall|i: int| 0 <= i < j ==> self.last@[i] == start[i],
            ensures
                has_next ==> is_element(self.shape@, self.last@) && offset(
                    self.shape@,
                    self.last@,
                ) == reached + 1,
                !has_next ==> j == 0 && offset(self.shape@, self.last@) + element_count(
                    self.shape@,
                ) == reached + 1,
                !has_next ==> forall|i: int| 0 <= i < n ==> self.last@[i] == 0,
            decreases j,
        {
            j -= 1;
            let ghost before = self.last@;
            let digit = self.last[j];
            assert(digit == start[j as int]);
            let ghost size = self.shape@[j as int] as nat;
            let ghost step = suffix_count(self.shape@, j + 1);
            assert(start[j as int] < self.shape@[j as int]);
            if digit == self.shape[j] - 1 {
                self.last.set(j, 0);
                proof {
                    lemma_offset_update(self.shape@, before, n as int, j as int, 0);
                    assert(0 * step == 0) by (nonlinear_arith);
                    assert((size - 1) * step + step == size * step) by (nonlinear_arith);
                    assert(stride(self.shape@, j as int) == step);
                }
            } else {
                self.last.set(j, digit + 1);
                has_next = true;
                proof {
                    lemma_offset_update(
                        self.shape@,
                        before,
                        n as int,
                        j as int,
                        (digit + 1) as usize,
                    );
                    assert((digit + 1) * step == digit * step + step) by (nonlinear_arith);
                    assert(stride(self.shape@, j as int) == step);
                    assert forall|i: int| 0 <= i < n implies #[trigger] self.last@[i]
                        < self.shape@[i] by {
                        assert(start[i] < self.shape@[i]);
                        if i < j {
                            assert(self.last@[i] == before[i]);
                        } else if i > j {
                            assert(self.last@[i] == before[i]);
                        }
                    }
                }
                break ;
            }
        }
        if has_next {
            proof {
                lemma_offset_bound(self.shape@, self.last@, n as int);
            }
            Some(self.last.as_slice())
        } else {
            proof {
                lemma_offset_zero(self.shape@, self.last@, n as int);
            }
            self.done = true;
            None
        }
    }

    /// Feeds every index that is left to `f`, in order, threading a value
    /// through the calls, and returns what the last call returned (`init`
    /// when no index is left).
    pub fn fold<V, F: FnMut(V, &[usize]) -> V>(self, init: V, mut f: F) -> (result: V)
        requires
            self.wf(),
            forall|v: V, idx: &[usize]| is_element(self.dims(), idx@) ==> call_requires(f, (v, idx)),
        ensures
            exists|vals: Seq<V>|
                {
                    &&& vals.len() == element_count(self.dims()) - self.position() + 1
                    &&& vals[0] == init
                    &&& vals.last() == result
                    &&& #[trigger] is_fold_chain(f, self.dims(), self.position(), vals)
                },
    {
        let mut walk = self;
        let ghost dims = walk.dims();
        let ghost from = walk.position();
        let ghost f0 = f;
        let ghost mut vals: Seq<V> = seq![init];
        let mut val = init;
        proof {
            walk.lemma_position_bound();
        }
        loop
            invariant_except_break
                walk.wf(),
                walk.dims() == dims,
                from <= walk.position() <= element_count(dims),
                vals.len() == walk.position() - from + 1,
                vals[0] == init,
                vals.last() == val,
                is_fold_chain(f, dims, from, vals),
                forall|v: V, idx: &[usize]| is_element(dims, idx@) ==> call_requires(f, (v, idx)),
            invariant
                f == f0,
            ensures
                vals.len() == element_count(dims) - from + 1,
                vals[0] == init,
                vals.last() == val,
                is_fold_chain(f, dims, from, vals),
            decreases element_count(dims) - walk.position(),
        {
            let ghost place = walk.position();
            match walk.next() {
                Some(idx) => {
                    let ghost before = vals;
                    let ghost prev = val;
                    val = f(val, idx);
                    proof {
                        vals = vals.push(val);
                        assert forall|k: int, other: &[usize]|
                            0 <= k < vals.len() - 1 && is_element(dims, other@) && offset(
                                dims,
                                other@,
                            ) == from + k implies #[trigger] call_ensures(
                            f,
                            (vals[k], other),
                            vals[k + 1],
                        ) by {
                            if k < before.len() - 1 {
                                assert(vals[k] == before[k]);
                                assert(vals[k + 1] == before[k + 1]);
                            } else {
                                lemma_offset_injective(dims, other@, idx@);
                                assert(other =~= idx);
                            }
                        }
                    }
                },
                None => {
                    break ;
                },
            }
        }
        proof {
            assert(vals.len() == element_count(dims) - from + 1 && vals[0] == init && vals.last()
                == val && is_fold_chain(f, dims, from, vals));
        }
        val
    }
}

} // verus!
