use zaru::nn::indices::ShapeIndices;
use zaru::nn::layout::{fits, Layout};
use zaru::nn::tensor::Tensor;

#[test]
fn from_shape_fn() {
    let indices = [
        [0, 0, 0],
        [0, 0, 1],
        [0, 0, 2],
        [0, 1, 0],
        [0, 1, 1],
        [0, 1, 2],
    ];

    let mut iter = indices.into_iter();
    let tensor = Tensor::from_array_shape_fn([1, 2, 3], |index| {
        assert_eq!(iter.next(), Some(index));
        0.0
    });
    assert_eq!(tensor.rank(), 3);
    assert_eq!(tensor.shape(), &[1, 2, 3]);

    let mut iter = indices.into_iter();
    let tensor = Tensor::from_dyn_shape_fn(&[1, 2, 3], |index| {
        assert_eq!(iter.next().as_ref().map(|arr| &arr[..]), Some(index));
        0.0
    });
    assert_eq!(tensor.rank(), 3);
    assert_eq!(tensor.shape(), &[1, 2, 3]);
}

#[test]
fn empty() {
    let tensor: Tensor<f32> =
        Tensor::from_array_shape_fn([1, 2, 0, 3], |idx| unreachable!("{idx:?}"));
    assert_eq!(tensor.shape(), &[1, 2, 0, 3]);
    assert_eq!(tensor.iter().len(), 1);

    let view = tensor.index([0, 1]);
    assert_eq!(view.shape(), &[0, 3]);
    assert_eq!(view.iter().len(), 0);
    view.index([]);
}

#[test]
fn singular() {
    // "What if f32, but obtuse"?

    let mut hits = 0;
    let tensor = Tensor::from_array_shape_fn([], |[]| {
        hits += 1;
        1.0
    });
    assert_eq!(hits, 1);
    assert_eq!(tensor.shape(), &[]);
    assert_eq!(tensor.rank(), 0);
    assert_eq!(tensor.as_singular(), 1.0);

    let view = tensor.index([]);
    assert_eq!(view.shape(), &[]);
    assert_eq!(view.rank(), 0);
    assert_eq!(view.as_singular(), 1.0);
}

#[test]
fn index_shapes() {
    let tensor = Tensor::from_array_shape_fn([1, 1, 1], |_| 1.0);
    assert_eq!(tensor.shape(), &[1, 1, 1]);
    assert_eq!(tensor.rank(), 3);

    let view2d = tensor.index([0]);
    assert_eq!(view2d.shape(), &[1, 1]);
    assert_eq!(view2d.rank(), 2);

    let view1d = view2d.index([0]);
    assert_eq!(view1d.shape(), &[1]);
    assert_eq!(view1d.rank(), 1);
    assert_eq!(view1d.as_slice(), &[1.0]);

    let view0d = view1d.index([0]);
    assert_eq!(view0d.shape(), &[]);
    assert_eq!(view0d.rank(), 0);
    assert_eq!(view0d.as_singular(), 1.0);

    // same view but from the tensor directly
    let view1d = tensor.index([0, 0]);
    assert_eq!(view1d.shape(), &[1]);
    assert_eq!(view1d.rank(), 1);
    assert_eq!(view1d.as_slice(), &[1.0]);

    let view0d = view1d.index([0]);
    assert_eq!(view0d.shape(), &[]);
    assert_eq!(view0d.rank(), 0);
    assert_eq!(view0d.as_singular(), 1.0);
}

#[test]
fn index_1d_elems() {
    let array = Tensor::from([0.0, 1.0, 2.0]);
    assert_eq!(array.shape(), &[3]);
    assert_eq!(array.as_slice(), &[0.0, 1.0, 2.0]);
    let same_array = array.index([]);
    assert_eq!(same_array.shape(), &[3]);
    assert_eq!(same_array.as_slice(), &[0.0, 1.0, 2.0]);

    let first = array.index([0]);
    assert_eq!(first.shape(), &[]);
    assert_eq!(first.as_singular(), 0.0);
    let second = array.index([1]);
    assert_eq!(second.shape(), &[]);
    assert_eq!(second.as_singular(), 1.0);
    let third = array.index([2]);
    assert_eq!(third.shape(), &[]);
    assert_eq!(third.as_singular(), 2.0);
}

#[test]
fn index_2d_elems() {
    let mut iter = [[0.0, 1.0], [2.0, 3.0]].into_iter().flatten();
    let tensor = Tensor::from_array_shape_fn([2, 2], |_| iter.next().unwrap());
    assert_eq!(tensor.shape(), [2, 2]);

    let row0 = tensor.index([0]);
    assert_eq!(row0.shape(), [2]);
    assert_eq!(row0.as_slice(), [0.0, 1.0]);

    let row1 = tensor.index([1]);
    assert_eq!(row1.shape(), [2]);
    assert_eq!(row1.as_slice(), [2.0, 3.0]);

    assert_eq!(tensor.index([1, 1]).as_singular(), 3.0);
    assert_eq!(tensor.index([1, 0]).as_singular(), 2.0);
}

#[test]
fn stored_value_is_the_value_for_its_index() {
    let shape = [2usize, 3, 4];
    let tensor = Tensor::from_dyn_shape_fn(&shape, |index| {
        (index[0] * 100 + index[1] * 10 + index[2]) as f32
    });
    assert_eq!(tensor.shape(), &shape);
    for a in 0..2 {
        for b in 0..3 {
            for c in 0..4 {
                let value = tensor.index([a, b, c]).as_singular();
                assert_eq!(value, (a * 100 + b * 10 + c) as f32);
            }
        }
    }
}

#[test]
fn last_axis_varies_fastest() {
    let mut calls = Vec::new();
    let tensor = Tensor::from_array_shape_fn([2, 2, 2], |index| {
        calls.push(index);
        calls.len() as u32
    });
    assert_eq!(
        calls,
        vec![
            [0, 0, 0],
            [0, 0, 1],
            [0, 1, 0],
            [0, 1, 1],
            [1, 0, 0],
            [1, 0, 1],
            [1, 1, 0],
            [1, 1, 1]
        ]
    );
    assert_eq!(tensor.index([1, 0, 1]).as_singular(), 6);
}

#[test]
fn indexing_twice_is_indexing_once() {
    let tensor = Tensor::from_array_shape_fn([2, 3, 4, 5], |[a, b, c, d]| {
        (a * 1000 + b * 100 + c * 10 + d) as u32
    });
    for a in 0..2 {
        for b in 0..3 {
            let twice = tensor.index([a]).index([b]);
            let once = tensor.index([a, b]);
            assert_eq!(twice.shape(), once.shape());
            assert_eq!(twice.shape(), &[4, 5]);
            for c in 0..4 {
                assert_eq!(twice.index([c]).as_slice(), once.index([c]).as_slice());
                for d in 0..5 {
                    assert_eq!(
                        tensor.index([a, b]).index([c, d]).as_singular(),
                        tensor.index([a, b, c, d]).as_singular()
                    );
                }
            }
        }
    }
}

#[test]
fn index_of_1_2_3_with_0_1() {
    let mut produced = Vec::new();
    let tensor = Tensor::from_array_shape_fn([1, 2, 3], |_| {
        let value = produced.len() as f32 * 1.5;
        produced.push(value);
        value
    });
    let view = tensor.index([0, 1]);
    assert_eq!(view.shape(), &[3]);
    assert_eq!(view.as_slice(), &produced[3..]);
    assert_eq!(view.as_slice(), &[4.5, 6.0, 7.5]);
}

#[test]
fn iter_yields_outermost_views() {
    let tensor = Tensor::from_array_shape_fn([3, 2], |[a, b]| (a * 2 + b) as i32);
    let views = tensor.iter();
    assert_eq!(views.len(), 3);
    assert_eq!(views[0].as_slice(), &[0, 1]);
    assert_eq!(views[1].as_slice(), &[2, 3]);
    assert_eq!(views[2].as_slice(), &[4, 5]);
    let inner = views[2].iter();
    assert_eq!(inner.len(), 2);
    assert_eq!(inner[1].as_singular(), 5);
}

#[test]
fn scalar_and_slice_conversions() {
    let scalar = Tensor::from_scalar(7u8);
    assert_eq!(scalar.rank(), 0);
    assert_eq!(scalar.as_singular(), 7);
    let values = vec![1.0f32, 2.0];
    let tensor = Tensor::from(&values[..]);
    assert_eq!(tensor.shape(), &[2]);
    assert_eq!(tensor.as_slice(), &[1.0, 2.0]);
    let empty = Tensor::<f32>::from_slice(&[]);
    assert_eq!(empty.shape(), &[0]);
    assert_eq!(empty.iter().len(), 0);
}

#[test]
fn layout_strides_are_row_major() {
    let layout = Layout::from_shape(&[2, 3, 4, 5]);
    assert_eq!(layout.shape(), &[2, 3, 4, 5]);
    assert_eq!(layout.stride_slice(), &[60, 20, 5, 1]);
    assert_eq!(layout.element_count(), 120);
    let rest = layout.remove_prefix(2);
    assert_eq!(rest.shape(), &[4, 5]);
    assert_eq!(rest.stride_slice(), &[5, 1]);
    let none = layout.remove_prefix(4);
    assert_eq!(none.shape(), &[] as &[usize]);
    assert_eq!(none.element_count(), 1);
    let copy = layout.duplicate();
    assert_eq!(copy.shape(), layout.shape());
}

#[test]
fn layout_of_more_than_eight_dimensions() {
    let shape = [1usize, 2, 1, 2, 1, 2, 1, 2, 1, 3];
    let layout = Layout::from_shape(&shape);
    assert_eq!(layout.shape(), &shape);
    assert_eq!(layout.stride_slice(), &[48, 24, 24, 12, 12, 6, 6, 3, 3, 1]);
    assert_eq!(layout.element_count(), 48);
}

#[test]
fn shape_indices_walk_in_memory_order() {
    let mut indices = ShapeIndices::new(&[2, 2]);
    assert_eq!(indices.next(), Some(&[0usize, 0][..]));
    assert_eq!(indices.next(), Some(&[0usize, 1][..]));
    assert_eq!(indices.next(), Some(&[1usize, 0][..]));
    assert_eq!(indices.next(), Some(&[1usize, 1][..]));
    assert_eq!(indices.next(), None);
    assert_eq!(indices.next(), None);

    let mut none = ShapeIndices::new(&[3, 0]);
    assert_eq!(none.next(), None);
    assert_eq!(none.next(), None);

    let mut one = ShapeIndices::new(&[]);
    assert_eq!(one.next(), Some(&[][..]));
    assert_eq!(one.next(), None);
}

#[test]
fn shape_indices_fold_threads_a_value() {
    let indices = ShapeIndices::new(&[2, 3]);
    let seen = indices.fold(Vec::new(), |mut seen, index| {
        seen.push(index[0] * 3 + index[1]);
        seen
    });
    assert_eq!(seen, vec![0, 1, 2, 3, 4, 5]);

    let mut partly = ShapeIndices::new(&[2, 2]);
    partly.next();
    let count = partly.fold(0, |count, _| count + 1);
    assert_eq!(count, 3);
}

#[test]
fn clones_hold_the_same_values() {
    let tensor = Tensor::from_array_shape_fn([2, 2], |[a, b]| (a * 2 + b) as u16);
    let copy = tensor.clone();
    assert_eq!(copy.shape(), tensor.shape());
    assert_eq!(copy.data(), &[0, 1, 2, 3]);
    let view = tensor.index([1]);
    let same = view.clone();
    assert_eq!(same.shape(), &[2]);
    assert_eq!(same.as_slice(), &[2, 3]);
    assert_eq!(tensor.view().data(), tensor.data());
}

#[test]
fn tensor_from_values_checks_the_count() {
    let values = [1.0f32, 2.0, 3.0, 4.0, 5.0, 6.0];
    let tensor = Tensor::from_values(&[2, 3], &values).unwrap();
    assert_eq!(tensor.shape(), &[2, 3]);
    assert_eq!(tensor.index([1]).as_slice(), &[4.0, 5.0, 6.0]);
    assert!(Tensor::from_values(&[2, 2], &values).is_none());
    assert!(Tensor::from_values(&[7], &values).is_none());
    assert!(Tensor::from_values(&[usize::MAX, 2], &values).is_none());
    assert!(Tensor::<f32>::from_values(&[3, 0], &[]).is_some());
    assert_eq!(Tensor::from_values(&[], &[9u8]).unwrap().as_singular(), 9);
}

#[test]
fn shapes_that_fit() {
    assert!(fits(&[]));
    assert!(fits(&[2, 3, 4]));
    assert!(fits(&[usize::MAX]));
    assert!(fits(&[usize::MAX, 1, 1]));
    assert!(fits(&[usize::MAX, usize::MAX, 0]));
    assert!(!fits(&[0, usize::MAX, usize::MAX]));
    assert!(!fits(&[2, usize::MAX]));
}
