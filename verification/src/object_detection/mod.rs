//! Working with the output of object detection models.

pub mod class_names;
pub mod object_detection_model;
pub mod object_detection_utils;
pub mod yolov11;
