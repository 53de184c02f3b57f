//! Tiling and padding of images.

pub mod padding;
pub mod tiling;
