//! What the library asks of an object detection model.

use crate::annotations::bounding_box::BoundingBoxGeometry;
use crate::annotations::detection::Detection;
use crate::image_utils::tiling::TileWindow;
use vstd::prelude::*;

verus! {

/// A model that finds objects in a part of an image.
///
/// The model holds the image. It is handed the window of one tile and the
/// least confidence that a detection must have, and answers with the
/// detections it finds inside the window, positions counted from the window's
/// top left corner.
pub trait ObjectDetectionModel<T: BoundingBoxGeometry> {
    /// `detections` is an answer that the model may give when it is asked for
    /// the objects in `window` with at least the given confidence. Each model
    /// may say for itself what its answers are; a model that does not say
    /// may answer anything. The library assumes nothing of the answers and
    /// only records which answer was given to which question.
    open spec fn answers(
        &self,
        window: TileWindow,
        confidence: i64,
        detections: Seq<Detection<T>>,
    ) -> bool {
        true
    }

    fn run_inference(&self, window: &TileWindow, confidence: i64) -> (detections: Vec<
        Detection<T>,
    >)
        ensures
            self.answers(*window, confidence, detections@),
    ;
}

} // verus!
