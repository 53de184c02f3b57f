//! Rectangles that carry one keypoint.

use crate::annotations::bounding_box::{BoundingBox, BoundingBoxError, BoundingBoxGeometry, BoxView};
use crate::annotations::point::Point;
use vstd::prelude::*;

verus! {

/// A rectangle with a category and a single keypoint, as pose models report
/// them. The keypoint may lie anywhere; the rectangle's edges are in order.
#[derive(Debug, PartialEq, Eq)]
pub struct BoundingBoxWithKeypoint {
    bounding_box: BoundingBox,
    keypoint: Point,
}

impl BoundingBoxWithKeypoint {
    /// The keypoint of the annotation.
    pub closed spec fn keypoint(&self) -> Point {
        self.keypoint
    }

    /// The rectangle of the annotation.
    pub closed spec fn rectangle(&self) -> BoxView {
        self.bounding_box@
    }

    /// Makes the annotation, or says which pair of edges is out of order, as
    /// `BoundingBox::new` does.
    pub fn new(
        left: i64,
        top: i64,
        right: i64,
        bottom: i64,
        keypoint_x: i64,
        keypoint_y: i64,
        category: String,
    ) -> (result: Result<BoundingBoxWithKeypoint, BoundingBoxError>)
        ensures
            result.is_ok() <==> left <= right && top <= bottom,
            match result {
                Ok(annotation) => {
                    &&& annotation.rectangle() == (BoxView {
                        left: left as int,
                        top: top as int,
                        right: right as int,
                        bottom: bottom as int,
                        category: category@,
                    })
                    &&& annotation.keypoint() == (Point { x: keypoint_x, y: keypoint_y })
                },
                Err(BoundingBoxError::InvalidLeftRight { left: l, right: r }) => left > right && l
                    == left && r == right,
                Err(BoundingBoxError::InvalidTopBottom { top: t, bottom: b }) => left <= right
                    && top > bottom && t == top && b == bottom,
            },
    {
        match BoundingBox::new(left, top, right, bottom, category) {
            Ok(bounding_box) => Ok(
                BoundingBoxWithKeypoint {
                    bounding_box,
                    keypoint: Point { x: keypoint_x, y: keypoint_y },
                },
            ),
            Err(e) => Err(e),
        }
    }

    pub fn get_keypoint_x(&self) -> (x: i64)
        ensures
            x == self.keypoint().x,
    {
        self.keypoint.x
    }

    pub fn get_keypoint_y(&self) -> (y: i64)
        ensures
            y == self.keypoint().y,
    {
        self.keypoint.y
    }
}

impl BoundingBoxGeometry for BoundingBoxWithKeypoint {
    open spec fn geometry(&self) -> BoxView {
        self.rectangle()
    }

    fn left(&self) -> (left: i64) {
        self.bounding_box.left()
    }

    fn top(&self) -> (top: i64) {
        self.bounding_box.top()
    }

    fn right(&self) -> (right: i64) {
        self.bounding_box.right()
    }

    fn bottom(&self) -> (bottom: i64) {
        self.bounding_box.bottom()
    }

    fn category(&self) -> (category: &String) {
        self.bounding_box.category()
    }

    fn as_xyxy(&self) -> (edges: (i64, i64, i64, i64)) {
        self.bounding_box.as_xyxy()
    }

    fn is_degenerate(&self) -> (degenerate: bool) {
        self.bounding_box.is_degenerate()
    }
}

} // verus!
