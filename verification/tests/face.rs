use zaru::anim::{Animation, AnimationFormat, AnimationFrame};
use zaru::face::landmark::{read_outputs, LandmarkIdx, LandmarkResult, LANDMARK_COUNT};
use zaru::nn::tensor::Tensor;
use zaru::face::tracking::LandmarkTracker;
use zaru::image::color::Color;
use zaru::image::raster::Image;
use zaru::image::rect::Rect;

#[test]
fn landmark_indices() {
    assert_eq!(LandmarkIdx::MouthLeft.index(), 78);
    assert_eq!(LandmarkIdx::MouthRight.index(), 308);
    assert_eq!(LandmarkIdx::MouthTop.index(), 13);
    assert_eq!(LandmarkIdx::MouthBottom.index(), 14);
    assert_eq!(LandmarkIdx::LeftEyeLeftCorner.index(), 33);
    assert_eq!(LandmarkIdx::LeftEyeRightCorner.index(), 133);
    assert_eq!(LandmarkIdx::LeftEyeTop.index(), 159);
    assert_eq!(LandmarkIdx::LeftEyeBottom.index(), 145);
    assert_eq!(LandmarkIdx::RightEyeLeftCorner.index(), 362);
    assert_eq!(LandmarkIdx::RightEyeRightCorner.index(), 263);
    assert_eq!(LandmarkIdx::RightEyeTop.index(), 386);
    assert_eq!(LandmarkIdx::RightEyeBottom.index(), 374);
    assert_eq!(LandmarkIdx::RightEyebrowLeftCorner.index(), 295);
    assert_eq!(LandmarkIdx::LeftEyebrowRightCorner.index(), 65);
}

#[test]
fn landmark_result_takes_over_coordinates() {
    let mut result = LandmarkResult::new(LANDMARK_COUNT, 0.0f32, 0.0);
    assert_eq!(result.landmark_count(), 468);
    assert_eq!(result.landmark_position(467), (0.0, 0.0, 0.0));
    let coords: Vec<f32> = (0..3 * LANDMARK_COUNT).map(|i| i as f32).collect();
    result.update(&coords, 0.875);
    assert_eq!(result.face_confidence(), 0.875);
    assert_eq!(result.landmark_position(0), (0.0, 1.0, 2.0));
    assert_eq!(result.landmark_position(33), (99.0, 100.0, 101.0));
    assert_eq!(result.landmark_positions()[467], [1401.0, 1402.0, 1403.0]);
}

#[test]
fn eye_rects_bound_their_landmarks() {
    let mut result = LandmarkResult::new(LANDMARK_COUNT, 0.0f32, 1.0);
    let mut coords = vec![0.0f32; 3 * LANDMARK_COUNT];
    let mut put = |idx: LandmarkIdx, x: f32, y: f32| {
        coords[3 * idx.index()] = x;
        coords[3 * idx.index() + 1] = y;
    };
    put(LandmarkIdx::LeftEyeLeftCorner, 10.5, 20.0);
    put(LandmarkIdx::LeftEyeRightCorner, 30.9, 21.0);
    put(LandmarkIdx::LeftEyeTop, 20.0, 15.2);
    put(LandmarkIdx::LeftEyeBottom, 20.0, 25.7);
    put(LandmarkIdx::RightEyeLeftCorner, 50.0, 20.0);
    put(LandmarkIdx::RightEyeRightCorner, 70.0, 20.0);
    put(LandmarkIdx::RightEyeTop, 60.0, 10.0);
    put(LandmarkIdx::RightEyeBottom, 60.0, 30.0);
    result.update(&coords, 1.0);
    let to_pixel = |x: f32, y: f32| (x as i32, y as i32);
    assert_eq!(result.left_eye(&to_pixel), Some(Rect::from_top_left(10, 15, 21, 11)));
    assert_eq!(result.right_eye(&to_pixel), Some(Rect::from_top_left(50, 10, 21, 21)));
    let mouth = result.bounding_rect(
        [
            LandmarkIdx::MouthLeft,
            LandmarkIdx::MouthRight,
            LandmarkIdx::MouthTop,
            LandmarkIdx::MouthBottom,
        ],
        &to_pixel,
    );
    assert_eq!(mouth, Some(Rect::from_top_left(0, 0, 1, 1)));
}

#[test]
fn tracker_starts_untracked() {
    let mut tracker = LandmarkTracker::new(0);
    assert!(!tracker.is_tracking());
    assert_eq!(tracker.roi(), None);
    assert_eq!(tracker.view_rect(640, 480), None);
    assert_eq!(tracker.track((0, 0), true, Rect::from_top_left(0, 0, 5, 5)), None);
    assert!(!tracker.is_tracking());
}

#[test]
fn tracker_follows_the_landmarks() {
    let mut tracker = LandmarkTracker::new(0);
    tracker.set_roi(Rect::from_top_left(100, 50, 200, 200));
    assert!(tracker.is_tracking());
    let view = tracker.view_rect(640, 480).unwrap();
    assert_eq!(view, Rect::from_top_left(100, 50, 200, 200));
    let bounds = Rect::from_top_left(20, 30, 150, 160);
    let offset = tracker.track((view.x(), view.y()), true, bounds);
    assert_eq!(offset, Some((100, 50)));
    assert_eq!(tracker.roi(), Some(Rect::from_top_left(120, 80, 150, 160)));
}

#[test]
fn tracker_offsets_by_the_clipped_origin() {
    let mut tracker = LandmarkTracker::new(10);
    tracker.set_roi(Rect::from_top_left(-40, 400, 200, 200));
    let view = tracker.view_rect(640, 480).unwrap();
    assert_eq!(view, Rect::from_top_left(0, 400, 160, 80));
    let bounds = Rect::from_top_left(10, 5, 100, 50);
    let offset = tracker.track((view.x(), view.y()), true, bounds);
    assert_eq!(offset, Some((0, 400)));
    // grown by a tenth of the extent on each side
    assert_eq!(tracker.roi(), Some(Rect::from_top_left(0, 400, 120, 60)));
}

#[test]
fn tracker_loses_the_face_without_confidence() {
    let mut tracker = LandmarkTracker::new(0);
    tracker.set_roi(Rect::from_top_left(0, 0, 10, 10));
    assert_eq!(tracker.track((0, 0), false, Rect::from_top_left(0, 0, 5, 5)), None);
    assert!(!tracker.is_tracking());
    assert_eq!(tracker.view_rect(10, 10), None);

    tracker.set_roi(Rect::from_top_left(700, 0, 10, 10));
    assert_eq!(tracker.view_rect(640, 480), Some(Rect::from_top_left(0, 0, 0, 0)));
    tracker.reset();
    assert!(!tracker.is_tracking());

    tracker.set_roi(Rect::from_top_left(0, 0, 10, 10));
    let far = Rect::from_top_left(i32::MAX, 0, 5, 5);
    assert_eq!(tracker.track((1, 0), true, far), None);
    assert!(!tracker.is_tracking());
}

#[test]
fn animation_formats() {
    assert_eq!(AnimationFormat::from_extension(b"gif"), Some(AnimationFormat::Gif));
    assert_eq!(AnimationFormat::from_extension(b"apng"), Some(AnimationFormat::Apng));
    assert_eq!(AnimationFormat::from_extension(b"png"), Some(AnimationFormat::Apng));
    assert_eq!(AnimationFormat::from_extension(b"jpg"), None);
    assert_eq!(AnimationFormat::from_extension(b"gi"), None);
    assert_eq!(AnimationFormat::from_extension(b"gift"), None);
    assert_eq!(AnimationFormat::from_extension(b""), None);
}

#[test]
fn animation_frames_are_handed_out_once() {
    let mut first = Image::new(2, 1);
    first.set(1, 0, Color::red());
    let second = Image::new(2, 1);
    let animation = Animation::from_frames(vec![
        AnimationFrame::new(first, 40_000_000),
        AnimationFrame::new(second, 100_000_000),
    ]);
    assert_eq!(animation.len(), 2);
    let mut frames = animation.frames();
    assert_eq!(frames.size_hint(), (2, Some(2)));
    let frame = frames.next().unwrap();
    assert_eq!(frame.duration(), 40_000_000);
    assert_eq!(frame.image_view().get(1, 0), Color::red());
    assert_eq!(frames.size_hint(), (1, Some(1)));
    let frame = frames.next().unwrap();
    assert_eq!(frame.duration(), 100_000_000);
    assert_eq!(frame.image_view().get(1, 0), Color::transparent());
    assert!(frames.next().is_none());
    assert!(frames.next().is_none());
    assert_eq!(frames.size_hint(), (0, Some(0)));
}

#[test]
fn landmark_outputs_are_read_by_shape() {
    let landmarks = Tensor::from_array_shape_fn([1, 1, 1, 1404], |[_, _, _, i]| i as f32);
    let flag = Tensor::from_array_shape_fn([1, 1, 1, 1], |_| 2.5f32);
    let (coords, value) = read_outputs(&landmarks, &flag).unwrap();
    assert_eq!(coords.len(), 1404);
    assert_eq!(coords[1403], 1403.0);
    assert_eq!(value, 2.5);
    assert!(read_outputs(&flag, &flag).is_none());
    assert!(read_outputs(&landmarks, &landmarks).is_none());
    let flat = Tensor::from_array_shape_fn([1404], |[i]| i as f32);
    assert!(read_outputs(&flat, &flag).is_none());
}
