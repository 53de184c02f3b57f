//! What an object detection model reports.

use crate::annotations::bounding_box::BoundingBoxGeometry;
use vstd::prelude::*;

verus! {

/// An annotation together with the model's confidence in it. The confidence is
/// an integer that stands for a probability: a larger integer is a higher
/// confidence.
#[derive(Debug, PartialEq, Eq)]
pub struct Detection<T: BoundingBoxGeometry> {
    pub annotation: T,
    pub confidence: i64,
}

/// The confidences of a list of detections, in the order of the list.
pub open spec fn confidences_of<T: BoundingBoxGeometry>(detections: Seq<Detection<T>>) -> Seq<int> {
    Seq::new(detections.len(), |i: int| detections[i].confidence as int)
}

/// The categories of a list of detections, in the order of the list.
pub open spec fn categories_of<T: BoundingBoxGeometry>(detections: Seq<Detection<T>>) -> Seq<
    Seq<char>,
> {
    Seq::new(detections.len(), |i: int| detections[i].annotation.geometry().category)
}

} // verus!
