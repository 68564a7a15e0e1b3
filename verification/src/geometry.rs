//! The values that the sample computation exchanges, and the computation
//! itself.

use vstd::prelude::*;

verus! {

/// A point of the integer plane.
#[derive(Clone, Copy, Debug, PartialEq, Eq, Structural)]
pub struct Point {
    pub x: i32,
    pub y: i32,
}

/// An axis-aligned rectangle, given by the coordinates of its four sides.
#[derive(Clone, Copy, Debug, PartialEq, Eq, Structural)]
pub struct Rect {
    pub left: i32,
    pub right: i32,
    pub top: i32,
    pub bottom: i32,
}

/// The smaller of two coordinates.
pub open spec fn lesser(a: i32, b: i32) -> i32 {
    if a <= b {
        a
    } else {
        b
    }
}

/// The larger of two coordinates.
pub open spec fn greater(a: i32, b: i32) -> i32 {
    if a <= b {
        b
    } else {
        a
    }
}

/// The rectangle that has the two points as opposite corners: `left` and
/// `top` are the smaller coordinates, `right` and `bottom` the larger ones.
pub open spec fn spanned_rect(a: Point, b: Point) -> Rect {
    Rect {
        left: lesser(a.x, b.x),
        right: greater(a.x, b.x),
        top: lesser(a.y, b.y),
        bottom: greater(a.y, b.y),
    }
}

/// Whether the point lies inside the rectangle or on its border.
pub open spec fn covers(r: Rect, p: Point) -> bool {
    r.left <= p.x <= r.right && r.top <= p.y <= r.bottom
}

/// Computes the rectangle spanned by two points.
pub fn bounding_rect(a: Point, b: Point) -> (r: Rect)
    ensures
        r == spanned_rect(a, b),
{
    let (left, right) = if a.x > b.x {
        (b.x, a.x)
    } else {
        (a.x, b.x)
    };
    let (top, bottom) = if a.y > b.y {
        (b.y, a.y)
    } else {
        (a.y, b.y)
    };
    Rect { left, right, top, bottom }
}

/// The spanned rectangle does not depend on the order of the two points.
pub proof fn lemma_spanned_rect_symmetric(a: Point, b: Point)
    ensures
        spanned_rect(a, b) == spanned_rect(b, a),
{
}

/// The spanned rectangle covers both points, and each of its sides passes
/// through one of them.
pub proof fn lemma_spanned_rect_tight(a: Point, b: Point)
    ensures
        covers(spanned_rect(a, b), a),
        covers(spanned_rect(a, b), b),
        spanned_rect(a, b).left == a.x || spanned_rect(a, b).left == b.x,
        spanned_rect(a, b).right == a.x || spanned_rect(a, b).right == b.x,
        spanned_rect(a, b).top == a.y || spanned_rect(a, b).top == b.y,
        spanned_rect(a, b).bottom == a.y || spanned_rect(a, b).bottom == b.y,
{
}

/// Adds two integers whose sum fits in 32 bits.
pub fn add(a: i32, b: i32) -> (sum: i32)
    requires
        i32::MIN <= a + b <= i32::MAX,
    ensures
        sum == a + b,
{
    a + b
}

} // verus!
