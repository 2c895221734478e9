//! Building blocks of a real-time face and hand analysis pipeline: tensors,
//! images, detection post-processing and tracking decisions.

pub mod anim;
pub mod detection;
pub mod face;
pub mod image;
pub mod nn;
pub mod num;
pub mod timer;
