//! Axis-aligned rectangles with a category.

use vstd::prelude::*;

verus! {

/// Why four coordinates do not make a rectangle.
#[derive(Debug, PartialEq, Eq, Structural)]
pub enum BoundingBoxError {
    /// The left edge lies to the right of the right edge.
    InvalidLeftRight { left: i64, right: i64 },
    /// The top edge lies below the bottom edge.
    InvalidTopBottom { top: i64, bottom: i64 },
}

/// What a rectangle is: its four edges and its category. The left side of the
/// image is `x = 0` and its top is `y = 0`.
pub struct BoxView {
    pub left: int,
    pub top: int,
    pub right: int,
    pub bottom: int,
    pub category: Seq<char>,
}

impl BoxView {
    /// The edges are in order: left is not right of right, top not below bottom.
    pub open spec fn is_ordered(self) -> bool {
        self.left <= self.right && self.top <= self.bottom
    }

    /// The rectangle has no area: two opposite edges coincide.
    pub open spec fn is_degenerate(self) -> bool {
        self.left == self.right || self.top == self.bottom
    }

    /// The four edges as `(left, top, right, bottom)`.
    pub open spec fn xyxy(self) -> (int, int, int, int) {
        (self.left, self.top, self.right, self.bottom)
    }
}

/// The larger of two integers.
pub open spec fn larger(a: int, b: int) -> int {
    if a >= b {
        a
    } else {
        b
    }
}

/// The smaller of two integers.
pub open spec fn smaller(a: int, b: int) -> int {
    if a <= b {
        a
    } else {
        b
    }
}

/// The region that two rectangles share, as `(left, top, right, bottom)`: the
/// larger of the lefts and tops, the smaller of the rights and bottoms. There
/// is none where these are out of order; rectangles that only touch share a
/// region without area.
pub open spec fn shared_region(a: BoxView, b: BoxView) -> Option<(int, int, int, int)> {
    let left = larger(a.left, b.left);
    let top = larger(a.top, b.top);
    let right = smaller(a.right, b.right);
    let bottom = smaller(a.bottom, b.bottom);
    if left > right || top > bottom {
        None
    } else {
        Some((left, top, right, bottom))
    }
}

/// What every annotation with the shape of a rectangle offers.
pub trait BoundingBoxGeometry {
    /// The rectangle that the annotation stands for.
    spec fn geometry(&self) -> BoxView;

    fn left(&self) -> (left: i64)
        ensures
            left == self.geometry().left,
            left <= self.geometry().right,
    ;

    fn top(&self) -> (top: i64)
        ensures
            top == self.geometry().top,
            top <= self.geometry().bottom,
    ;

    fn right(&self) -> (right: i64)
        ensures
            right == self.geometry().right,
            self.geometry().left <= right,
    ;

    fn bottom(&self) -> (bottom: i64)
        ensures
            bottom == self.geometry().bottom,
            self.geometry().top <= bottom,
    ;

    fn category(&self) -> (category: &String)
        ensures
            category@ == self.geometry().category,
    ;

    fn as_xyxy(&self) -> (edges: (i64, i64, i64, i64))
        ensures
            (edges.0 as int, edges.1 as int, edges.2 as int, edges.3 as int)
                == self.geometry().xyxy(),
            self.geometry().is_ordered(),
    ;

    /// Tells whether the rectangle is without area.
    fn is_degenerate(&self) -> (degenerate: bool)
        ensures
            degenerate == self.geometry().is_degenerate(),
    ;
}

/// A rectangle with the category of the object it marks.
#[derive(Debug, PartialEq, Eq)]
pub struct BoundingBox {
    left: i64,
    top: i64,
    right: i64,
    bottom: i64,
    category: String,
}

impl View for BoundingBox {
    type V = BoxView;

    closed spec fn view(&self) -> BoxView {
        BoxView {
            left: self.left as int,
            top: self.top as int,
            right: self.right as int,
            bottom: self.bottom as int,
            category: self.category@,
        }
    }
}

impl BoundingBox {
    #[verifier::type_invariant]
    spec fn edges_in_order(self) -> bool {
        self.left <= self.right && self.top <= self.bottom
    }

    /// Makes a rectangle from its edges, or says which pair is out of order:
    /// left and right first, then top and bottom.
    pub fn new(left: i64, top: i64, right: i64, bottom: i64, category: String) -> (result: Result<
        Self,
        BoundingBoxError,
    >)
        ensures
            result.is_ok() <==> left <= right && top <= bottom,
            match result {
                Ok(rectangle) => rectangle@ == (BoxView {
                    left: left as int,
                    top: top as int,
                    right: right as int,
                    bottom: bottom as int,
                    category: category@,
                }) && rectangle@.is_ordered(),
                Err(BoundingBoxError::InvalidLeftRight { left: l, right: r }) => left > right && l
                    == left && r == right,
                Err(BoundingBoxError::InvalidTopBottom { top: t, bottom: b }) => left <= right
                    && top > bottom && t == top && b == bottom,
            },
    {
        if left > right {
            Err(BoundingBoxError::InvalidLeftRight { left, right })
        } else if top > bottom {
            Err(BoundingBoxError::InvalidTopBottom { top, bottom })
        } else {
            Ok(BoundingBox { left, top, right, bottom, category })
        }
    }
}

impl BoundingBoxGeometry for BoundingBox {
    open spec fn geometry(&self) -> BoxView {
        self@
    }

    fn left(&self) -> (left: i64) {
        proof {
            use_type_invariant(self);
        }
        self.left
    }

    fn top(&self) -> (top: i64) {
        proof {
            use_type_invariant(self);
        }
        self.top
    }

    fn right(&self) -> (right: i64) {
        proof {
            use_type_invariant(self);
        }
        self.right
    }

    fn bottom(&self) -> (bottom: i64) {
        proof {
            use_type_invariant(self);
        }
        self.bottom
    }

    fn category(&self) -> (category: &String) {
        &self.category
    }

    fn as_xyxy(&self) -> (edges: (i64, i64, i64, i64)) {
        proof {
            use_type_invariant(self);
        }
        (self.left, self.top, self.right, self.bottom)
    }

    fn is_degenerate(&self) -> (degenerate: bool) {
        self.left == self.right || self.top == self.bottom
    }
}

/// Finds the region that two annotations share: `Some` with its edges, or
/// `None` where they lie apart.
pub fn intersection<A: BoundingBoxGeometry, B: BoundingBoxGeometry>(a: &A, b: &B) -> (region:
    Option<(i64, i64, i64, i64)>)
    ensures
        match region {
            Some(edges) => shared_region(a.geometry(), b.geometry()) == Some(
                (edges.0 as int, edges.1 as int, edges.2 as int, edges.3 as int),
            ),
            None => shared_region(a.geometry(), b.geometry()).is_none(),
        },
{
    let (a_left, a_top, a_right, a_bottom) = a.as_xyxy();
    let (b_left, b_top, b_right, b_bottom) = b.as_xyxy();
    let left = if a_left >= b_left { a_left } else { b_left };
    let top = if a_top >= b_top { a_top } else { b_top };
    let right = if a_right <= b_right { a_right } else { b_right };
    let bottom = if a_bottom <= b_bottom { a_bottom } else { b_bottom };
    if left > right || top > bottom {
        None
    } else {
        Some((left, top, right, bottom))
    }
}

/// The union of two rectangles has no area exactly when neither has any: the
/// case in which no ratio of intersection to union exists.
pub fn union_is_degenerate<A: BoundingBoxGeometry, B: BoundingBoxGeometry>(a: &A, b: &B) -> (degenerate:
    bool)
    ensures
        degenerate == (a.geometry().is_degenerate() && b.geometry().is_degenerate()),
{
    a.is_degenerate() && b.is_degenerate()
}

/// Two rectangles share the same region whichever is named first, and the
/// region lies inside both.
pub proof fn lemma_shared_region_symmetric(a: BoxView, b: BoxView)
    requires
        a.is_ordered(),
        b.is_ordered(),
    ensures
        shared_region(a, b) == shared_region(b, a),
        shared_region(a, b) matches Some(edges) ==> {
            &&& a.left <= edges.0 <= edges.2 <= a.right
            &&& b.left <= edges.0 <= edges.2 <= b.right
            &&& a.top <= edges.1 <= edges.3 <= a.bottom
            &&& b.top <= edges.1 <= edges.3 <= b.bottom
        },
{
}

} // verus!
