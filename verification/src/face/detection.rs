//! The face detection networks and the shape of what they emit.

use crate::detection::ssd::{anchor_total, anchors_of, AnchorParams, Anchors, LayerInfo};
use crate::nn::cnn::CnnInputShape;
use crate::nn::shape::{element_count, suffix_count};
use crate::nn::tensor::Tensor;
use vstd::prelude::*;
use vstd::slice::slice_subrange;

verus! {

/// The number of values that a detection network emits for each anchor's
/// box: the center, the size, and six keypoints of two coordinates each.
pub const BOX_PARAMS: usize = 16;

/// The number of keypoints that a detection network emits for each anchor.
pub const KEYPOINTS: usize = 6;

/// A supported face detection network.
pub trait DetectionNetwork {
    /// The grids of the network's output layers.
    spec fn layers() -> Seq<LayerInfo>;

    /// The number of anchors of the network.
    spec fn anchor_count() -> nat;

    /// Lays out the anchors of the network.
    fn anchors() -> (anchors: Anchors)
        ensures
            anchors@ == anchors_of(Self::layers(), Self::layers().len() as int),
            anchors@.len() == Self::anchor_count(),
            forall|k: int| 0 <= k < anchors@.len() ==> (#[trigger] anchors@[k]).centered(),
    ;

    /// The order in which the network expects its input image data.
    spec fn image_order() -> CnnInputShape;

    /// Returns the order in which the network expects its input image
    /// data.
    fn input_shape() -> (shape: CnnInputShape)
        ensures
            shape == Self::image_order(),
    ;
}

/// A small and efficient face detection network, best for faces within
/// three meters of the camera: a grid of 16 by 16 cells with 2 anchors each
/// and a grid of 8 by 8 cells with 6 anchors each.
pub struct ShortRangeNetwork;

/// A larger detection network with a greater detection range, but slower
/// inference: one grid of 48 by 48 cells with 1 anchor each.
pub struct FullRangeNetwork;

impl DetectionNetwork for ShortRangeNetwork {
    open spec fn layers() -> Seq<LayerInfo> {
        seq![
            LayerInfo { anchors_per_cell: 2, grid_cols: 16, grid_rows: 16 },
            LayerInfo { anchors_per_cell: 6, grid_cols: 8, grid_rows: 8 },
        ]
    }

    open spec fn anchor_count() -> nat {
        896
    }

    fn anchors() -> (anchors: Anchors) {
        let layers: [LayerInfo; 2] = [LayerInfo::new(2, 16, 16), LayerInfo::new(6, 8, 8)];
        proof {
            assert(layers@ =~= Self::layers());
            reveal_with_fuel(anchor_total, 3);
            assert(2 * 16 * 16 == 512 && 6 * 8 * 8 == 384) by (nonlinear_arith);
        }
        Anchors::calculate(&AnchorParams { layers: layers.as_slice() })
    }

    open spec fn image_order() -> CnnInputShape {
        CnnInputShape::NCHW
    }

    fn input_shape() -> (shape: CnnInputShape) {
        CnnInputShape::NCHW
    }
}

impl DetectionNetwork for FullRangeNetwork {
    open spec fn layers() -> Seq<LayerInfo> {
        seq![LayerInfo { anchors_per_cell: 1, grid_cols: 48, grid_rows: 48 }]
    }

    open spec fn anchor_count() -> nat {
        2304
    }

    fn anchors() -> (anchors: Anchors) {
        let layers: [LayerInfo; 1] = [LayerInfo::new(1, 48, 48)];
        proof {
            assert(layers@ =~= Self::layers());
            reveal_with_fuel(anchor_total, 2);
            assert(1 * 48 * 48 == 2304) by (nonlinear_arith);
        }
        Anchors::calculate(&AnchorParams { layers: layers.as_slice() })
    }

    open spec fn image_order() -> CnnInputShape {
        CnnInputShape::NCHW
    }

    fn input_shape() -> (shape: CnnInputShape) {
        CnnInputShape::NCHW
    }
}

/// Tells whether the two tensors that a detection network emits have the
/// shapes that belong to `num_anchors` anchors: `[1, num_anchors, 16]` for
/// the boxes and `[1, num_anchors, 1]` for the confidences.
pub fn check_output_shapes(num_anchors: usize, boxes: &[usize], confidences: &[usize]) -> (valid:
    bool)
    ensures
        valid <==> boxes@ == seq![1usize, num_anchors, 16usize] && confidences@ == seq![
            1usize,
            num_anchors,
            1usize,
        ],
{
    let valid = boxes.len() == 3 && boxes[0] == 1 && boxes[1] == num_anchors && boxes[2]
        == BOX_PARAMS && confidences.len() == 3 && confidences[0] == 1 && confidences[1]
        == num_anchors && confidences[2] == 1;
    proof {
        if valid {
            assert(boxes@ =~= seq![1usize, num_anchors, 16usize]);
            assert(confidences@ =~= seq![1usize, num_anchors, 1usize]);
        }
    }
    valid
}

/// A detection that the network rates high enough to be looked at: the
/// anchor it belongs to, the key that orders it by confidence, and the
/// values that the network emitted for its box.
pub struct Candidate<'a, T> {
    pub anchor: usize,
    pub key: u32,
    pub params: &'a [T],
}

/// `list` holds, in the order of the anchors, a candidate for each anchor
/// whose rating in `answers` is a key, with that key and with the anchor's
/// sixteen values of `boxes`.
pub open spec fn is_selection<T>(
    list: Seq<Candidate<'_, T>>,
    answers: Seq<Option<u32>>,
    boxes: Seq<T>,
) -> bool {
    &&& forall|i: int, j: int|
        0 <= i < j < list.len() ==> (#[trigger] list[i]).anchor < (#[trigger] list[j]).anchor
    &&& forall|i: int|
        0 <= i < list.len() ==> {
            &&& (#[trigger] list[i]).anchor < answers.len()
            &&& answers[list[i].anchor as int] == Some(list[i].key)
            &&& list[i].params@ == boxes.subrange(
                BOX_PARAMS * list[i].anchor,
                BOX_PARAMS * list[i].anchor + BOX_PARAMS,
            )
        }
    &&& forall|a: int|
        0 <= a < answers.len() && (#[trigger] answers[a]) is Some ==> exists|i: int|
            0 <= i < list.len() && (#[trigger] list[i]).anchor == a
}

/// Walks what a detection network emitted for `num_anchors` anchors and
/// picks the detections to look at.
///
/// `rate` is asked once for each anchor, in order, with the confidence value
/// that the network emitted for it. Where it answers with a key, the anchor
/// gets a candidate. The result is `None` where the two tensors do not have
/// the shapes that belong to `num_anchors` anchors.
pub fn candidates<'a, T: Copy, R: Fn(T) -> Option<u32>>(
    num_anchors: usize,
    boxes: &'a Tensor<T>,
    confidences: &Tensor<T>,
    rate: &R,
) -> (result: Option<Vec<Candidate<'a, T>>>)
    requires
        boxes.wf(),
        confidences.wf(),
        forall|value: T| call_requires(rate, (value,)),
    ensures
        result is Some <==> boxes.dims() == seq![1usize, num_anchors, 16usize]
            && confidences.dims() == seq![1usize, num_anchors, 1usize],
        match result {
            Some(list) => exists|answers: Seq<Option<u32>>|
                {
                    &&& answers.len() == num_anchors
                    &&& confidences.elems().len() == num_anchors
                    &&& forall|a: int|
                        0 <= a < num_anchors ==> call_ensures(
                            rate,
                            (confidences.elems()[a],),
                            #[trigger] answers[a],
                        )
                    &&& #[trigger] is_selection(list@, answers, boxes.elems())
                },
            None => true,
        },
{
    if !check_output_shapes(num_anchors, boxes.shape(), confidences.shape()) {
        return None;
    }
    proof {
        boxes.lemma_wf();
        confidences.lemma_wf();
        reveal_with_fuel(suffix_count, 5);
        assert(element_count(confidences.dims()) == num_anchors) by (nonlinear_arith)
            requires
                element_count(confidences.dims()) == 1 * (num_anchors * (1 * 1)),
        ;
        assert(element_count(boxes.dims()) == 16 * num_anchors) by (nonlinear_arith)
            requires
                element_count(boxes.dims()) == 1 * (num_anchors * (16 * 1)),
        ;
    }
    let ratings = confidences.data();
    let values = boxes.data();
    let total = values.len();
    let mut list: Vec<Candidate<'a, T>> = Vec::new();
    let ghost mut answers: Seq<Option<u32>> = Seq::empty();
    let mut a: usize = 0;
    while a < num_anchors
        invariant
            a <= num_anchors,
            ratings@ == confidences.elems(),
            values@ == boxes.elems(),
            ratings@.len() == num_anchors,
            values@.len() == 16 * num_anchors,
            total == values@.len(),
            answers.len() == a,
            forall|value: T| call_requires(rate, (value,)),
            forall|k: int|
                0 <= k < a ==> call_ensures(rate, (ratings@[k],), #[trigger] answers[k]),
            is_selection(list@, answers, values@),
        decreases num_anchors - a,
    {
        let answer = rate(ratings[a]);
        let ghost before = list@;
        let ghost answered = answers;
        proof {
            answers = answers.push(answer);
        }
        if let Some(key) = answer {
            let params = slice_subrange(values, BOX_PARAMS * a, BOX_PARAMS * a + BOX_PARAMS);
            list.push(Candidate { anchor: a, key, params });
            proof {
                assert forall|i: int, j: int| 0 <= i < j < list@.len() implies (#[trigger] list@[i]).anchor
                    < (#[trigger] list@[j]).anchor by {
                    assert(list@[i] == before[i]);
                    if j < before.len() {
                        assert(list@[j] == before[j]);
                    }
                }
                assert forall|i: int| 0 <= i < list@.len() implies {
                    &&& (#[trigger] list@[i]).anchor < answers.len()
                    &&& answers[list@[i].anchor as int] == Some(list@[i].key)
                    &&& list@[i].params@ == values@.subrange(
                        BOX_PARAMS * list@[i].anchor,
                        BOX_PARAMS * list@[i].anchor + BOX_PARAMS,
                    )
                } by {
                    if i < before.len() {
                        assert(list@[i] == before[i]);
                        assert(answers[before[i].anchor as int] == answered[before[i].anchor as int]);
                    }
                }
                assert forall|k: int| 0 <= k < answers.len() && (#[trigger] answers[k]) is Some implies exists|
                    i: int,
                | 0 <= i < list@.len() && (#[trigger] list@[i]).anchor == k by {
                    if k < a {
                        assert(answered[k] is Some);
                        let i = choose|i: int| 0 <= i < before.len() && (#[trigger] before[i]).anchor == k;
                        assert(list@[i].anchor == k);
                    } else {
                        assert(list@[list@.len() - 1].anchor == k);
                    }
                }
            }
        } else {
            proof {
                assert forall|i: int| 0 <= i < list@.len() implies {
                    &&& (#[trigger] list@[i]).anchor < answers.len()
                    &&& answers[list@[i].anchor as int] == Some(list@[i].key)
                    &&& list@[i].params@ == values@.subrange(
                        BOX_PARAMS * list@[i].anchor,
                        BOX_PARAMS * list@[i].anchor + BOX_PARAMS,
                    )
                } by {
                    assert(answers[list@[i].anchor as int] == answered[list@[i].anchor as int]);
                }
                assert forall|k: int| 0 <= k < answers.len() && (#[trigger] answers[k]) is Some implies exists|
                    i: int,
                | 0 <= i < list@.len() && (#[trigger] list@[i]).anchor == k by {
                    assert(k < a);
                    assert(answered[k] is Some);
                    let i = choose|i: int| 0 <= i < list@.len() && (#[trigger] list@[i]).anchor == k;
                    assert(list@[i].anchor == k);
                }
            }
        }
        proof {
            assert forall|k: int| 0 <= k < a + 1 implies call_ensures(
                rate,
                (ratings@[k],),
                #[trigger] answers[k],
            ) by {
                if k < a {
                    assert(answers[k] == answered[k]);
                }
            }
        }
        a += 1;
    }
    let found = Some(list);
    proof {
        assert(is_selection(found->0@, answers, boxes.elems()));
    }
    found
}

} // verus!
