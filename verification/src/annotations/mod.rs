//! Points, rectangles and detections.

pub mod bounding_box;
pub mod bounding_box_with_keypoint;
pub mod detection;
pub mod named_point;
pub mod point;
