//! Carrying rectangles through a warp of the plane.
//!
//! The warp itself is fitted and applied to points by the caller, on real
//! numbers. What is decided here is which corners of a rectangle are carried,
//! and which rectangle stands for the carried corners.

use crate::annotations::bounding_box::{BoundingBox, BoundingBoxError, BoundingBoxGeometry, BoxView};
use crate::annotations::bounding_box_with_keypoint::BoundingBoxWithKeypoint;
use crate::annotations::point::Point;
use vstd::prelude::*;

verus! {

/// The four corners of a rectangle.
#[derive(Clone, Copy, Debug, PartialEq, Eq, Structural)]
pub struct Corners {
    pub left_top: Point,
    pub left_bottom: Point,
    pub right_top: Point,
    pub right_bottom: Point,
}

/// The corners of the rectangle with the given edges.
pub open spec fn corners_of_box(geometry: BoxView) -> (int, int, int, int, int, int, int, int) {
    (
        geometry.left,
        geometry.top,
        geometry.left,
        geometry.bottom,
        geometry.right,
        geometry.top,
        geometry.right,
        geometry.bottom,
    )
}

/// The coordinates of four corners, in the order of `corners_of_box`.
pub open spec fn coordinates(corners: Corners) -> (int, int, int, int, int, int, int, int) {
    (
        corners.left_top.x as int,
        corners.left_top.y as int,
        corners.left_bottom.x as int,
        corners.left_bottom.y as int,
        corners.right_top.x as int,
        corners.right_top.y as int,
        corners.right_bottom.x as int,
        corners.right_bottom.y as int,
    )
}

/// The least of four integers.
pub open spec fn least_of(a: int, b: int, c: int, d: int) -> int {
    let ab = if a <= b { a } else { b };
    let cd = if c <= d { c } else { d };
    if ab <= cd { ab } else { cd }
}

/// The greatest of four integers.
pub open spec fn greatest_of(a: int, b: int, c: int, d: int) -> int {
    let ab = if a >= b { a } else { b };
    let cd = if c >= d { c } else { d };
    if ab >= cd { ab } else { cd }
}

/// The edges `(left, top, right, bottom)` of the smallest rectangle with
/// upright sides that holds four points.
pub open spec fn enclosing_edges(corners: Corners) -> (int, int, int, int) {
    (
        least_of(
            corners.left_top.x as int,
            corners.left_bottom.x as int,
            corners.right_top.x as int,
            corners.right_bottom.x as int,
        ),
        least_of(
            corners.left_top.y as int,
            corners.left_bottom.y as int,
            corners.right_top.y as int,
            corners.right_bottom.y as int,
        ),
        greatest_of(
            corners.left_top.x as int,
            corners.left_bottom.x as int,
            corners.right_top.x as int,
            corners.right_bottom.x as int,
        ),
        greatest_of(
            corners.left_top.y as int,
            corners.left_bottom.y as int,
            corners.right_top.y as int,
            corners.right_bottom.y as int,
        ),
    )
}

/// The enclosing rectangle has its edges in order and holds every corner, and
/// each of its edges passes through a corner.
pub proof fn lemma_enclosing_edges_hold_the_corners(corners: Corners)
    ensures
        ({
            let (left, top, right, bottom) = enclosing_edges(corners);
            &&& left <= right
            &&& top <= bottom
            &&& left <= corners.left_top.x <= right
            &&& left <= corners.left_bottom.x <= right
            &&& left <= corners.right_top.x <= right
            &&& left <= corners.right_bottom.x <= right
            &&& top <= corners.left_top.y <= bottom
            &&& top <= corners.left_bottom.y <= bottom
            &&& top <= corners.right_top.y <= bottom
            &&& top <= corners.right_bottom.y <= bottom
            &&& (left == corners.left_top.x || left == corners.left_bottom.x || left
                == corners.right_top.x || left == corners.right_bottom.x)
            &&& (right == corners.left_top.x || right == corners.left_bottom.x || right
                == corners.right_top.x || right == corners.right_bottom.x)
            &&& (top == corners.left_top.y || top == corners.left_bottom.y || top
                == corners.right_top.y || top == corners.right_bottom.y)
            &&& (bottom == corners.left_top.y || bottom == corners.left_bottom.y || bottom
                == corners.right_top.y || bottom == corners.right_bottom.y)
        }),
{
}

/// The corners of an annotation's rectangle: the points to carry through the
/// warp.
pub fn corners_of<T: BoundingBoxGeometry>(bbox: &T) -> (corners: Corners)
    ensures
        coordinates(corners) == corners_of_box(bbox.geometry()),
{
    let (left, top, right, bottom) = bbox.as_xyxy();
    Corners {
        left_top: Point { x: left, y: top },
        left_bottom: Point { x: left, y: bottom },
        right_top: Point { x: right, y: top },
        right_bottom: Point { x: right, y: bottom },
    }
}

fn least(a: i64, b: i64) -> (least: i64)
    ensures
        least == (if a <= b { a } else { b }),
{
    if a <= b {
        a
    } else {
        b
    }
}

fn greatest(a: i64, b: i64) -> (greatest: i64)
    ensures
        greatest == (if a >= b { a } else { b }),
{
    if a >= b {
        a
    } else {
        b
    }
}

/// The edges of the rectangle that stands for a warped box: the least and the
/// greatest coordinates of its carried corners.
pub fn transform_box(carried: &Corners) -> (edges: (i64, i64, i64, i64))
    ensures
        (edges.0 as int, edges.1 as int, edges.2 as int, edges.3 as int) == enclosing_edges(
            *carried,
        ),
        edges.0 <= edges.2,
        edges.1 <= edges.3,
{
    let new_left = least(
        least(carried.left_top.x, carried.left_bottom.x),
        least(carried.right_top.x, carried.right_bottom.x),
    );
    let new_top = least(
        least(carried.left_top.y, carried.left_bottom.y),
        least(carried.right_top.y, carried.right_bottom.y),
    );
    let new_right = greatest(
        greatest(carried.left_top.x, carried.left_bottom.x),
        greatest(carried.right_top.x, carried.right_bottom.x),
    );
    let new_bottom = greatest(
        greatest(carried.left_top.y, carried.left_bottom.y),
        greatest(carried.right_top.y, carried.right_bottom.y),
    );
    (new_left, new_top, new_right, new_bottom)
}

/// The rectangle that stands for a warped rectangle: it encloses the carried
/// corners of `bbox` and has its category. This always succeeds.
pub fn transform_bounding_box(bbox: &BoundingBox, carried: &Corners) -> (result: Result<
    BoundingBox,
    BoundingBoxError,
>)
    ensures
        result matches Ok(warped) && ({
            let (left, top, right, bottom) = enclosing_edges(*carried);
            warped@ == (BoxView { left, top, right, bottom, category: bbox@.category })
        }),
{
    let category: String = bbox.category().clone();
    let (new_left, new_top, new_right, new_bottom) = transform_box(carried);
    BoundingBox::new(new_left, new_top, new_right, new_bottom, category)
}

/// The annotation that stands for a warped rectangle with a keypoint: its
/// rectangle encloses the carried corners, its keypoint is the carried
/// keypoint, and the category is kept. This always succeeds.
pub fn transform_bounding_box_with_keypoint(
    bbox_with_kp: &BoundingBoxWithKeypoint,
    carried: &Corners,
    carried_keypoint: Point,
) -> (result: Result<BoundingBoxWithKeypoint, BoundingBoxError>)
    ensures
        result matches Ok(warped) && ({
            let (left, top, right, bottom) = enclosing_edges(*carried);
            &&& warped.rectangle() == (BoxView {
                left,
                top,
                right,
                bottom,
                category: bbox_with_kp.rectangle().category,
            })
            &&& warped.keypoint() == carried_keypoint
        }),
{
    let category: String = bbox_with_kp.category().clone();
    let (new_left, new_top, new_right, new_bottom) = transform_box(carried);
    BoundingBoxWithKeypoint::new(
        new_left,
        new_top,
        new_right,
        new_bottom,
        carried_keypoint.x,
        carried_keypoint.y,
        category,
    )
}

} // verus!
