//! A position in the image plane.

use vstd::prelude::*;

verus! {

/// A point of the plane. Each coordinate is an integer that stands for a real
/// position on its axis; two points are equal when both coordinates are.
#[derive(Clone, Copy, Debug, PartialEq, Eq, Hash, Structural)]
pub struct Point {
    pub x: i64,
    pub y: i64,
}

} // verus!
