//! Screen geometry in whole points.
//!
//! Layout frames are rounded to whole points before they are compared or
//! sent, so the library works on integer coordinates.

use vstd::prelude::*;

verus! {

/// A point in whole screen points.
#[derive(Clone, Copy, Debug, PartialEq, Eq, Structural)]
pub struct Point {
    pub x: i32,
    pub y: i32,
}

/// A width and a height in whole screen points.
#[derive(Clone, Copy, Debug, PartialEq, Eq, Structural)]
pub struct Size {
    pub width: i32,
    pub height: i32,
}

/// An axis-aligned rectangle: its origin (smallest corner) and its size.
#[derive(Clone, Copy, Debug, PartialEq, Eq, Structural)]
pub struct Rect {
    pub origin: Point,
    pub size: Size,
}

impl Point {
    pub fn new(x: i32, y: i32) -> (p: Point)
        ensures
            p.x == x,
            p.y == y,
    {
        Point { x, y }
    }
}

impl Size {
    pub fn new(width: i32, height: i32) -> (s: Size)
        ensures
            s.width == width,
            s.height == height,
    {
        Size { width, height }
    }

    /// Whether two sizes are the same size.
    pub fn same_as(&self, other: &Size) -> (b: bool)
        ensures
            b == (*self == *other),
    {
        self.width == other.width && self.height == other.height
    }
}

impl Rect {
    /// A rectangle from its origin coordinates and its dimensions.
    pub fn new(x: i32, y: i32, width: i32, height: i32) -> (r: Rect)
        ensures
            r.origin.x == x,
            r.origin.y == y,
            r.size.width == width,
            r.size.height == height,
    {
        Rect { origin: Point { x, y }, size: Size { width, height } }
    }

    /// The largest x coordinate: origin plus width.
    pub open spec fn spec_max_x(self) -> int {
        self.origin.x + self.size.width
    }

    /// The largest y coordinate: origin plus height.
    pub open spec fn spec_max_y(self) -> int {
        self.origin.y + self.size.height
    }

    /// The largest x coordinate of the rectangle.
    pub fn max_x(&self) -> (m: i64)
        ensures
            m == self.spec_max_x(),
    {
        self.origin.x as i64 + self.size.width as i64
    }

    /// The largest y coordinate of the rectangle.
    pub fn max_y(&self) -> (m: i64)
        ensures
            m == self.spec_max_y(),
    {
        self.origin.y as i64 + self.size.height as i64
    }

    /// Whether two rectangles have the same origin and the same size.
    pub fn same_as(&self, other: &Rect) -> (b: bool)
        ensures
            b == (*self == *other),
    {
        self.origin.x == other.origin.x && self.origin.y == other.origin.y
            && self.size.same_as(&other.size)
    }
}

} // verus!
