//! Shapes. Lengths are whole device pixels.

use vstd::prelude::*;

verus! {

/// An axis-aligned rectangle.
#[derive(Debug, Clone, Copy, PartialEq, Eq, Structural)]
pub struct Rect {
    pub x: i32,
    pub y: i32,
    pub width: u32,
    pub height: u32,
}

/// The radii of one corner.
#[derive(Debug, Clone, Copy, PartialEq, Eq, Structural)]
pub struct Radii {
    pub horizontal: u32,
    pub vertical: u32,
}

/// A rectangle with rounded corners.
#[derive(Debug, Clone, Copy, PartialEq, Eq, Structural)]
pub struct RRect {
    pub rect: Rect,
    pub top_left: Radii,
    pub top_right: Radii,
    pub bottom_right: Radii,
    pub bottom_left: Radii,
}

impl Rect {
    /// The rectangle with the given corner and size.
    pub fn new(x: i32, y: i32, width: u32, height: u32) -> (r: Rect)
        ensures
            r == (Rect { x, y, width, height }),
    {
        Rect { x, y, width, height }
    }

    /// Whether the point lies inside the rectangle, its left and top edges
    /// included.
    pub open spec fn holds(self, px: int, py: int) -> bool {
        &&& self.x <= px < self.x + self.width
        &&& self.y <= py < self.y + self.height
    }

    /// Whether the point lies inside the rectangle, its left and top edges
    /// included.
    pub fn contains(&self, px: i32, py: i32) -> (r: bool)
        ensures
            r == self.holds(px as int, py as int),
    {
        let x0 = self.x as i64;
        let y0 = self.y as i64;
        let x = px as i64;
        let y = py as i64;
        x0 <= x && x < x0 + self.width as i64 && y0 <= y && y < y0 + self.height as i64
    }
}

impl RRect {
    /// The rectangle with every corner rounded by `radius`.
    pub fn uniform(rect: Rect, radius: u32) -> (r: RRect)
        ensures
            r.rect == rect,
            r.top_left == (Radii { horizontal: radius, vertical: radius }),
            r.top_right == r.top_left,
            r.bottom_right == r.top_left,
            r.bottom_left == r.top_left,
    {
        let corner = Radii { horizontal: radius, vertical: radius };
        RRect {
            rect,
            top_left: corner,
            top_right: corner,
            bottom_right: corner,
            bottom_left: corner,
        }
    }
}

} // verus!
