//! Plain pixel geometry: points, sizes and rectangles, as the renderer and
//! the game's cursor use them.

use vstd::prelude::*;

verus! {

/// A pixel position; coordinates may be negative (off the top or left
/// edge of a surface).
#[derive(PartialEq, Eq, Structural, Clone, Copy, Debug)]
pub struct Point {
    pub x: i32,
    pub y: i32,
}

impl Point {
    pub fn new(x: i32, y: i32) -> (r: Point)
        ensures
            r == (Point { x, y }),
    {
        Point { x, y }
    }

    pub fn zero() -> (r: Point)
        ensures
            r == (Point { x: 0, y: 0 }),
    {
        Point { x: 0, y: 0 }
    }
}

/// A width and height in pixels.
#[derive(PartialEq, Eq, Structural, Clone, Copy, Debug)]
pub struct Size {
    pub width: u32,
    pub height: u32,
}

impl Size {
    pub fn new(width: u32, height: u32) -> (r: Size)
        ensures
            r == (Size { width, height }),
    {
        Size { width, height }
    }

    pub fn zero() -> (r: Size)
        ensures
            r == (Size { width: 0, height: 0 }),
    {
        Size { width: 0, height: 0 }
    }
}

/// An axis-aligned rectangle given by its top-left corner and its size.
#[derive(PartialEq, Eq, Structural, Clone, Copy, Debug)]
pub struct Rectangle {
    pub top_left: Point,
    pub size: Size,
}

/// Whether the pixel position `(x, y)` lies inside `r`.
pub open spec fn rect_contains(r: Rectangle, x: int, y: int) -> bool {
    &&& r.top_left.x <= x < r.top_left.x + r.size.width
    &&& r.top_left.y <= y < r.top_left.y + r.size.height
}

impl Rectangle {
    pub fn new(top_left: Point, size: Size) -> (r: Rectangle)
        ensures
            r == (Rectangle { top_left, size }),
    {
        Rectangle { top_left, size }
    }

    /// The empty rectangle at the origin.
    pub fn zero() -> (r: Rectangle)
        ensures
            r == (Rectangle { top_left: Point { x: 0, y: 0 }, size: Size { width: 0, height: 0 } }),
    {
        Rectangle { top_left: Point { x: 0, y: 0 }, size: Size { width: 0, height: 0 } }
    }

    /// Whether the rectangle covers no pixels at all.
    pub fn is_zero_sized(&self) -> (r: bool)
        ensures
            r == (self.size.width == 0 || self.size.height == 0),
    {
        self.size.width == 0 || self.size.height == 0
    }
}

} // verus!
