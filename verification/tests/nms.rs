use zaru::detection::nms::{rank, NonMaxSuppression, SuppressionMode};
use zaru::num::total_order_key;

const DEFAULT_IOU_THRESH: f32 = 0.3;

#[derive(Clone, Copy, Debug, PartialEq)]
struct BoundingRect {
    xc: f32,
    yc: f32,
    w: f32,
    h: f32,
}

impl BoundingRect {
    fn from_center(xc: f32, yc: f32, w: f32, h: f32) -> Self {
        Self { xc, yc, w, h }
    }

    fn scale(&self, factor: f32) -> Self {
        Self { w: self.w * factor, h: self.h * factor, ..*self }
    }

    fn area(&self) -> f32 {
        self.w * self.h
    }

    fn iou(&self, other: &Self) -> f32 {
        let x1 = (self.xc - self.w / 2.0).max(other.xc - other.w / 2.0);
        let y1 = (self.yc - self.h / 2.0).max(other.yc - other.h / 2.0);
        let x2 = (self.xc + self.w / 2.0).min(other.xc + other.w / 2.0);
        let y2 = (self.yc + self.h / 2.0).min(other.yc + other.h / 2.0);
        if x2 <= x1 || y2 <= y1 {
            return 0.0;
        }
        let common = (x2 - x1) * (y2 - y1);
        let union = self.area() + other.area() - common;
        if union <= 0.0 {
            0.0
        } else {
            common / union
        }
    }
}

#[derive(Clone, Debug)]
struct RawDetection {
    confidence: f32,
    rect: BoundingRect,
}

impl RawDetection {
    fn new(confidence: f32, rect: BoundingRect) -> Self {
        Self { confidence, rect }
    }

    fn confidence(&self) -> f32 {
        self.confidence
    }

    fn bounding_rect(&self) -> BoundingRect {
        self.rect
    }
}

/// Runs the suppression on float detections the way the pipeline does: the
/// library clusters, the caller merges.
fn process(
    nms: &NonMaxSuppression,
    iou_thresh: f32,
    detections: &[RawDetection],
) -> Vec<RawDetection> {
    let keys: Vec<u32> = detections
        .iter()
        .map(|det| total_order_key(det.confidence.to_bits()))
        .collect();
    let groups = nms.process(&keys, |seed, other| {
        detections[seed].rect.iou(&detections[other].rect) >= iou_thresh
    });
    groups
        .iter()
        .map(|group| match nms.mode() {
            SuppressionMode::Remove => detections[group[0]].clone(),
            SuppressionMode::Average => {
                let mut acc = BoundingRect::from_center(0.0, 0.0, 0.0, 0.0);
                let mut divisor = 0.0;
                for &member in group {
                    let det = &detections[member];
                    let factor = det.confidence;
                    divisor += factor;
                    acc.xc += det.rect.xc * factor;
                    acc.yc += det.rect.yc * factor;
                    acc.w += det.rect.w * factor;
                    acc.h += det.rect.h * factor;
                }
                acc.xc /= divisor;
                acc.yc /= divisor;
                acc.w /= divisor;
                acc.h /= divisor;
                RawDetection::new(detections[group[0]].confidence, acc)
            }
        })
        .collect()
}

#[test]
fn nms_suppresses_non_maximum() {
    let mut nms = NonMaxSuppression::new();
    nms.set_mode(SuppressionMode::Remove);

    let rect = BoundingRect::from_center(0.0, 0.0, 1.0, 1.0);
    let a = RawDetection::new(0.6, rect);
    let b = RawDetection::new(0.55, rect.scale(1.5));
    let detections = process(&nms, DEFAULT_IOU_THRESH, &vec![a, b]);
    assert_eq!(detections.len(), 1);

    let d = &detections[0];
    let rect = d.bounding_rect();
    assert_eq!(d.confidence(), 0.6);
    assert_eq!(rect.xc, 0.0);
    assert_eq!(rect.yc, 0.0);
    assert_eq!(rect.w, 1.0);
    assert_eq!(rect.h, 1.0);
}

#[test]
fn nms_ignores_nonoverlapping() {
    let mut nms = NonMaxSuppression::new();
    nms.set_mode(SuppressionMode::Remove);

    let a = RawDetection::new(1.0, BoundingRect::from_center(0.0, 0.0, 1.0, 1.0));
    let b = RawDetection::new(1.0, BoundingRect::from_center(5.0, 0.0, 1.0, 1.0));

    let detections = process(&nms, DEFAULT_IOU_THRESH, &vec![a, b]);
    assert_eq!(detections.len(), 2);
}

#[test]
fn nma_averages_detections() {
    let mut nms = NonMaxSuppression::new();
    nms.set_mode(SuppressionMode::Average);

    let rect = BoundingRect::from_center(-1.0, 3.0, 1.0, 1.0);
    let a = RawDetection::new(1.0, rect);
    let b = RawDetection::new(0.5, rect.scale(4.0));
    let detections = process(&nms, 0.0, &vec![a, b]);
    assert_eq!(detections.len(), 1);

    let d = &detections[0];
    let rect = d.bounding_rect();
    assert_eq!(d.confidence(), 1.0);
    assert_eq!(rect.xc, -1.0);
    assert_eq!(rect.yc, 3.0);
    assert_eq!(rect.w, 2.0);
    assert_eq!(rect.h, 2.0);
}

#[test]
fn new_suppressor_averages() {
    let nms = NonMaxSuppression::new();
    assert_eq!(nms.mode(), SuppressionMode::Average);
    let mut nms = nms;
    nms.set_mode(SuppressionMode::Remove);
    assert_eq!(nms.mode(), SuppressionMode::Remove);
}

#[test]
fn rank_orders_by_key_then_index() {
    assert_eq!(rank(&[]), Vec::<usize>::new());
    assert_eq!(rank(&[5]), vec![0]);
    assert_eq!(rank(&[30, 10, 20]), vec![1, 2, 0]);
    assert_eq!(rank(&[7, 7, 3, 7]), vec![2, 0, 1, 3]);
}

#[test]
fn clusters_partition_the_detections() {
    // 0 and 2 overlap, 1 and 3 overlap, 4 stands alone
    let keys = [50u32, 40, 30, 20, 10];
    let overlap = |a: usize, b: usize| a % 2 == b % 2 && a != 4 && b != 4;
    let clusters = NonMaxSuppression::cluster(&keys, overlap);
    assert_eq!(clusters, vec![vec![0, 2], vec![1, 3], vec![4]]);

    let mut nms = NonMaxSuppression::new();
    assert_eq!(nms.process(&keys, overlap), vec![vec![0, 2], vec![1, 3], vec![4]]);
    nms.set_mode(SuppressionMode::Remove);
    assert_eq!(nms.process(&keys, overlap), vec![vec![0], vec![1], vec![4]]);
}

#[test]
fn members_follow_the_seed_in_ascending_order() {
    let keys = [10u32, 40, 20, 30];
    let clusters = NonMaxSuppression::cluster(&keys, |_, _| true);
    assert_eq!(clusters, vec![vec![1, 0, 2, 3]]);
}

#[test]
fn overlap_is_asked_for_the_seed_and_what_is_left() {
    let keys = [1u32, 2, 3];
    let asked = std::cell::RefCell::new(Vec::new());
    let clusters = NonMaxSuppression::cluster(&keys, |seed, other| {
        asked.borrow_mut().push((seed, other));
        false
    });
    assert_eq!(clusters, vec![vec![2], vec![1], vec![0]]);
    assert_eq!(*asked.borrow(), vec![(2, 0), (2, 1), (1, 0)]);
}

#[test]
fn no_two_survivors_overlap_after_removal() {
    let rects = [
        BoundingRect::from_center(0.0, 0.0, 2.0, 2.0),
        BoundingRect::from_center(0.5, 0.0, 2.0, 2.0),
        BoundingRect::from_center(1.0, 0.0, 2.0, 2.0),
        BoundingRect::from_center(3.0, 0.0, 2.0, 2.0),
        BoundingRect::from_center(3.2, 0.1, 2.0, 2.0),
        BoundingRect::from_center(9.0, 9.0, 1.0, 1.0),
    ];
    let confidences = [0.7f32, 0.9, 0.6, 0.8, 0.95, 0.5];
    let detections: Vec<RawDetection> = rects
        .iter()
        .zip(confidences)
        .map(|(rect, confidence)| RawDetection::new(confidence, *rect))
        .collect();
    let mut nms = NonMaxSuppression::new();
    nms.set_mode(SuppressionMode::Remove);
    let survivors = process(&nms, DEFAULT_IOU_THRESH, &detections);
    assert!(!survivors.is_empty());
    for (i, a) in survivors.iter().enumerate() {
        for b in &survivors[i + 1..] {
            assert!(a.rect.iou(&b.rect) < DEFAULT_IOU_THRESH);
            assert!(a.confidence >= b.confidence);
        }
    }
    assert_eq!(survivors[0].confidence, 0.95);
}

#[test]
fn average_keeps_the_seed_confidence() {
    let rect = BoundingRect::from_center(0.0, 0.0, 2.0, 2.0);
    let detections = vec![
        RawDetection::new(0.25, rect.scale(2.0)),
        RawDetection::new(0.75, rect),
    ];
    let nms = NonMaxSuppression::new();
    let merged = process(&nms, 0.0, &detections);
    assert_eq!(merged.len(), 1);
    assert_eq!(merged[0].confidence, 0.75);
    // (0.75 * 2 + 0.25 * 4) / 1.0
    assert_eq!(merged[0].rect.w, 2.5);
    assert_eq!(merged[0].rect.h, 2.5);
}

#[test]
fn iou_of_test_rects() {
    let a = BoundingRect::from_center(0.0, 0.0, 1.0, 1.0);
    assert_eq!(a.iou(&a), 1.0);
    let b = BoundingRect::from_center(5.0, 0.0, 1.0, 1.0);
    assert_eq!(a.iou(&b), 0.0);
    assert_eq!(a.iou(&b), b.iou(&a));
    let empty = BoundingRect::from_center(0.0, 0.0, 0.0, 0.0);
    assert_eq!(a.iou(&empty), 0.0);
}

#[test]
fn order_keys_follow_the_total_order() {
    let values = [
        f32::NEG_INFINITY,
        -2.5,
        -1.0,
        -0.0,
        0.0,
        0.25,
        0.5,
        0.55,
        0.6,
        1.0,
        f32::INFINITY,
    ];
    for pair in values.windows(2) {
        let low = total_order_key(pair[0].to_bits());
        let high = total_order_key(pair[1].to_bits());
        assert!(low < high, "{} {}", pair[0], pair[1]);
    }
    assert_eq!(total_order_key(0), 0x8000_0000);
    assert_eq!(total_order_key(0x8000_0000), 0x7fff_ffff);
    assert_eq!(total_order_key(1.0f32.to_bits()), 0xbf80_0000);
}
