//! Image manipulation: owned RGBA rasters and rectangular views into them.

pub mod codec;
pub mod color;
pub mod raster;
pub mod rect;
pub mod resolution;
pub mod view;
