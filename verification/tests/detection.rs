use zaru::detection::ssd::{Anchor, AnchorParams, Anchors, LayerInfo};
use zaru::face::detection::{
    candidates, check_output_shapes, DetectionNetwork, FullRangeNetwork, ShortRangeNetwork,
};
use zaru::nn::tensor::Tensor;
use zaru::nn::cnn::CnnInputShape;

fn center(anchor: &Anchor) -> (f32, f32) {
    let (xn, xd) = anchor.x_center();
    let (yn, yd) = anchor.y_center();
    (xn as f32 / xd as f32, yn as f32 / yd as f32)
}

#[test]
fn anchors_of_one_small_layer() {
    let layers = [LayerInfo::new(2, 2, 1)];
    let anchors = Anchors::calculate(&AnchorParams { layers: &layers });
    assert_eq!(anchors.anchor_count(), 4);
    assert_eq!(center(anchors.index(0)), (0.25, 0.5));
    assert_eq!(center(anchors.index(1)), (0.25, 0.5));
    assert_eq!(center(anchors.index(2)), (0.75, 0.5));
    assert_eq!(center(anchors.index(3)), (0.75, 0.5));
    assert_eq!(anchors.index(2).cell_x(), 1);
    assert_eq!(anchors.index(2).cell_y(), 0);
}

#[test]
fn anchors_walk_rows_then_columns_then_layers() {
    let layers = [LayerInfo::new(1, 2, 2), LayerInfo::new(3, 1, 1)];
    let anchors = Anchors::calculate(&AnchorParams { layers: &layers });
    assert_eq!(anchors.anchor_count(), 1 * 2 * 2 + 3 * 1 * 1);
    let centers: Vec<(f32, f32)> = (0..7).map(|i| center(anchors.index(i))).collect();
    assert_eq!(
        centers,
        vec![
            (0.25, 0.25),
            (0.75, 0.25),
            (0.25, 0.75),
            (0.75, 0.75),
            (0.5, 0.5),
            (0.5, 0.5),
            (0.5, 0.5)
        ]
    );
}

#[test]
fn anchors_are_cell_centers() {
    let layers = [LayerInfo::new(2, 16, 16), LayerInfo::new(6, 8, 8)];
    let anchors = Anchors::calculate(&AnchorParams { layers: &layers });
    let mut expected = Vec::new();
    for layer in &layers {
        for y in 0..layer.grid_rows {
            for x in 0..layer.grid_cols {
                for _ in 0..layer.anchors_per_cell {
                    expected.push((
                        (x as f32 + 0.5) / layer.grid_cols as f32,
                        (y as f32 + 0.5) / layer.grid_rows as f32,
                    ));
                }
            }
        }
    }
    assert_eq!(anchors.anchor_count(), expected.len());
    for (i, want) in expected.iter().enumerate() {
        assert_eq!(center(anchors.index(i)), *want);
    }
}

#[test]
fn anchor_centers_lie_inside_the_input() {
    let anchors = ShortRangeNetwork::anchors();
    assert_eq!(anchors.anchor_count(), 2 * 16 * 16 + 6 * 8 * 8);
    for i in 0..anchors.anchor_count() {
        let (x, y) = center(anchors.index(i));
        assert!(0.0 < x && x < 1.0);
        assert!(0.0 < y && y < 1.0);
    }
    let anchors = FullRangeNetwork::anchors();
    assert_eq!(anchors.anchor_count(), 48 * 48);
    assert_eq!(ShortRangeNetwork::input_shape(), CnnInputShape::NCHW);
    assert_eq!(FullRangeNetwork::input_shape(), CnnInputShape::NCHW);
}

#[test]
fn no_layers_no_anchors() {
    let anchors = Anchors::calculate(&AnchorParams { layers: &[] });
    assert_eq!(anchors.anchor_count(), 0);
    let layers = [LayerInfo::new(0, 4, 4), LayerInfo::new(2, 0, 4)];
    let anchors = Anchors::calculate(&AnchorParams { layers: &layers });
    assert_eq!(anchors.anchor_count(), 0);
}

#[test]
fn output_shapes() {
    assert!(check_output_shapes(896, &[1, 896, 16], &[1, 896, 1]));
    assert!(!check_output_shapes(896, &[1, 896, 16], &[1, 896]));
    assert!(!check_output_shapes(896, &[1, 895, 16], &[1, 896, 1]));
    assert!(!check_output_shapes(896, &[1, 896, 15], &[1, 896, 1]));
    assert!(!check_output_shapes(896, &[2, 896, 16], &[1, 896, 1]));
    assert!(!check_output_shapes(896, &[1, 896, 16], &[1, 896, 2]));
    assert!(!check_output_shapes(896, &[1, 896, 16, 1], &[1, 896, 1]));
}

#[test]
fn candidates_are_the_anchors_rated_with_a_key() {
    let boxes = Tensor::from_array_shape_fn([1, 4, 16], |[_, a, k]| (a * 100 + k) as f32);
    let logits = [-3.0f32, 2.0, 0.5, -0.1];
    let confidences = Tensor::from_array_shape_fn([1, 4, 1], |[_, a, _]| logits[a]);
    let asked = std::cell::RefCell::new(Vec::new());
    let rate = |logit: f32| {
        asked.borrow_mut().push(logit);
        (logit >= 0.0).then(|| (logit * 10.0) as u32)
    };
    let found = candidates(4, &boxes, &confidences, &rate).unwrap();
    assert_eq!(*asked.borrow(), logits);
    assert_eq!(found.len(), 2);
    assert_eq!((found[0].anchor, found[0].key), (1, 20));
    assert_eq!((found[1].anchor, found[1].key), (2, 5));
    assert_eq!(found[0].params.len(), 16);
    assert_eq!(found[0].params[0], 100.0);
    assert_eq!(found[1].params[15], 215.0);

    assert!(candidates(3, &boxes, &confidences, &rate).is_none());
    let other = Tensor::from_array_shape_fn([1, 4], |_| 0.0f32);
    assert!(candidates(4, &boxes, &other, &rate).is_none());
    assert!(candidates(4, &other, &confidences, &rate).is_none());

    let none = Tensor::from_array_shape_fn([1, 0, 16], |_| 0.0f32);
    let empty = Tensor::from_array_shape_fn([1, 0, 1], |_| 0.0f32);
    assert_eq!(candidates(0, &none, &empty, &rate).unwrap().len(), 0);
}
