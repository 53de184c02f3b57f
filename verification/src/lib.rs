//! Geometry and matching rules for digitizing photographed anesthesia charts.
//!
//! A chart is photographed, object detection models find its landmarks,
//! handwritten numbers and checkboxes on overlapping tiles of the photograph,
//! and the detections are registered to the points of a template so that each
//! can be assigned to a field. This crate holds the decisions of that
//! pipeline:
//!
//! - `image_utils`: how an image is cut into tiles, and how it is padded so
//!   that it can be;
//! - `object_detection`: which detections survive non-maximum suppression,
//!   how a model is run over the tiles, and how a model's candidates and the
//!   file of class names are read;
//! - `registration`: when the registration stops, which detection is matched
//!   to which template point, and which rectangle stands for a warped one;
//! - `digitization`: which matches are kept, and which template point is
//!   nearest to a detection;
//! - `annotations`: the points, rectangles and detections that all of these
//!   work on.
//!
//! Real quantities (coordinates, confidences, probabilities, distances) enter
//! as signed integers that stand for them. The library only ever compares such
//! integers, so any code that keeps the order of the quantities will do. What
//! has to be calculated on the quantities themselves (areas, the registration's
//! matrices, the warp) is the caller's part, and its results enter as plain
//! values: a table of overlaps, a table of probabilities, carried corners.

pub mod annotations;
pub mod digitization;
pub mod image_utils;
pub mod object_detection;
pub mod registration;
pub mod text;
