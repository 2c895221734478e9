//! Post-processing of detector output: anchors and suppression of
//! duplicate detections.

pub mod nms;
pub mod ssd;
