//! Assigning detections to the named points of a chart template.

pub mod digitize;
pub mod digitize_checkboxes;
