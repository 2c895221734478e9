//! Face detection and facial landmarks.

pub mod detection;
pub mod landmark;
pub mod tracking;
