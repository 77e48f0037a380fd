//! Small geometry types shared across the crate.
//!
//! These are deliberately unit-agnostic. Each module documents whether it
//! works in logical points or physical pixels.

use crate::scalar::Scalar;
use vstd::prelude::*;

verus! {

#[derive(Clone, Copy, Debug, PartialEq, Eq, Structural)]
pub struct Size {
    pub width: Scalar,
    pub height: Scalar,
}

impl Size {
    pub fn new(width: Scalar, height: Scalar) -> (r: Size)
        ensures
            r == (Size { width, height }),
    {
        Size { width, height }
    }
}

#[derive(Clone, Copy, Debug, PartialEq, Eq, Structural)]
pub struct Point {
    pub x: Scalar,
    pub y: Scalar,
}

impl Point {
    pub open spec fn zero() -> Point {
        Point { x: Scalar(0), y: Scalar(0) }
    }

    pub fn new(x: Scalar, y: Scalar) -> (r: Point)
        ensures
            r == (Point { x, y }),
    {
        Point { x, y }
    }
}

#[derive(Clone, Copy, Debug, PartialEq, Eq, Structural)]
pub struct Rect {
    pub origin: Point,
    pub size: Size,
}

impl Rect {
    pub open spec fn zero() -> Rect {
        Rect { origin: Point::zero(), size: Size { width: Scalar(0), height: Scalar(0) } }
    }

    pub fn new(x: Scalar, y: Scalar, width: Scalar, height: Scalar) -> (r: Rect)
        ensures
            r.origin == (Point { x, y }),
            r.size == (Size { width, height }),
    {
        Rect { origin: Point::new(x, y), size: Size::new(width, height) }
    }
}

/// Axis-aligned rectangle in integer pixels, used for atlas dirty tracking.
#[derive(Clone, Copy, Debug, PartialEq, Eq, Structural)]
pub struct RectPx {
    pub min_x: u32,
    pub min_y: u32,
    pub max_x: u32,
    pub max_y: u32,
}

impl RectPx {
    /// The pixel (x, y) lies in the rectangle.
    pub open spec fn covers(self, x: int, y: int) -> bool {
        self.min_x <= x < self.max_x && self.min_y <= y < self.max_y
    }

    /// The least rectangle around two.
    pub open spec fn joined(self, other: RectPx) -> RectPx {
        RectPx {
            min_x: if self.min_x <= other.min_x {
                self.min_x
            } else {
                other.min_x
            },
            min_y: if self.min_y <= other.min_y {
                self.min_y
            } else {
                other.min_y
            },
            max_x: if self.max_x >= other.max_x {
                self.max_x
            } else {
                other.max_x
            },
            max_y: if self.max_y >= other.max_y {
                self.max_y
            } else {
                other.max_y
            },
        }
    }

    pub fn new(min_x: u32, min_y: u32, max_x: u32, max_y: u32) -> (r: RectPx)
        ensures
            r == (RectPx { min_x, min_y, max_x, max_y }),
    {
        RectPx { min_x, min_y, max_x, max_y }
    }

    pub fn union(&mut self, other: RectPx)
        ensures
            *final(self) == old(self).joined(other),
    {
        if other.min_x < self.min_x {
            self.min_x = other.min_x;
        }
        if other.min_y < self.min_y {
            self.min_y = other.min_y;
        }
        if other.max_x > self.max_x {
            self.max_x = other.max_x;
        }
        if other.max_y > self.max_y {
            self.max_y = other.max_y;
        }
    }
}

/// A union covers every pixel of either rectangle, and lies in every
/// rectangle that holds both.
pub proof fn law_union_is_least(a: RectPx, b: RectPx, outer: RectPx)
    ensures
        forall|x: int, y: int| a.covers(x, y) || b.covers(x, y) ==> a.joined(b).covers(x, y),
        outer.joined(a) == outer && outer.joined(b) == outer ==> outer.joined(a.joined(b))
            == outer,
        a.joined(b) == b.joined(a),
        a.joined(a) == a,
{
}

/// Each side of a union is the outermost of the two sides.
pub proof fn law_union_sides(a: RectPx, b: RectPx)
    ensures
        ({
            let j = a.joined(b);
            &&& j.min_x <= a.min_x && j.min_x <= b.min_x && (j.min_x == a.min_x || j.min_x
                == b.min_x)
            &&& j.min_y <= a.min_y && j.min_y <= b.min_y && (j.min_y == a.min_y || j.min_y
                == b.min_y)
            &&& j.max_x >= a.max_x && j.max_x >= b.max_x && (j.max_x == a.max_x || j.max_x
                == b.max_x)
            &&& j.max_y >= a.max_y && j.max_y >= b.max_y && (j.max_y == a.max_y || j.max_y
                == b.max_y)
        }),
{
}

/// A rectangle of pixels covers width times height of them: its near corner,
/// and the pixel before its far corner, but neither far side.
pub proof fn law_far_sides_are_outside(r: RectPx)
    ensures
        r.min_x < r.max_x && r.min_y < r.max_y ==> r.covers(r.min_x as int, r.min_y as int)
            && r.covers(r.max_x - 1, r.max_y - 1),
        forall|y: int| !(#[trigger] r.covers(r.max_x as int, y)) && !r.covers(r.min_x - 1, y),
        forall|x: int| !(#[trigger] r.covers(x, r.max_y as int)) && !r.covers(x, r.min_y - 1),
{
}

/// The zero point and the zero rectangle lie at the origin, without extent.
pub proof fn law_zero_geometry()
    ensures
        Point::zero().x == Scalar(0) && Point::zero().y == Scalar(0),
        Rect::zero().origin == Point::zero(),
        Rect::zero().size.width == Scalar(0) && Rect::zero().size.height == Scalar(0),
{
}

} // verus!
