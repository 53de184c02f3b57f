//! A point of the template with its name.

use crate::annotations::point::Point;
use vstd::prelude::*;

verus! {

/// A point that bears a name, such as the centre of a checkbox of the chart.
#[derive(Debug, PartialEq, Eq)]
pub struct NamedPoint {
    name: String,
    point: Point,
}

impl NamedPoint {
    /// Where the point lies.
    pub closed spec fn position(&self) -> Point {
        self.point
    }

    /// The name that the point bears.
    pub closed spec fn label(&self) -> Seq<char> {
        self.name@
    }

    pub fn new(name: String, x: i64, y: i64) -> (named: NamedPoint)
        ensures
            named.label() == name@,
            named.position() == (Point { x, y }),
    {
        NamedPoint { name, point: Point { x, y } }
    }

    pub fn name(&self) -> (name: &String)
        ensures
            name@ == self.label(),
    {
        &self.name
    }

    pub fn x(&self) -> (x: i64)
        ensures
            x == self.position().x,
    {
        self.point.x
    }

    pub fn y(&self) -> (y: i64)
        ensures
            y == self.position().y,
    {
        self.point.y
    }
}

} // verus!
