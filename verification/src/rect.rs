//! Rectangles in logical pixels, and what a capture can be aimed at.

use vstd::prelude::*;

verus! {

/// A rectangle in logical pixels. Regions are output-relative; `DesktopRect`
/// uses compositor layout coordinates, which include negative monitor
/// positions.
#[derive(Debug, Clone, Copy, PartialEq, Eq, Structural)]
pub struct Rect {
    pub x: i32,
    pub y: i32,
    pub width: u32,
    pub height: u32,
}

impl Rect {
    /// One past the last column.
    pub open spec fn end_x(self) -> int {
        self.x + self.width
    }

    /// One past the last row.
    pub open spec fn end_y(self) -> int {
        self.y + self.height
    }

    /// Whether the point lies inside the rectangle.
    pub open spec fn has(self, x: int, y: int) -> bool {
        self.x <= x < self.end_x() && self.y <= y < self.end_y()
    }

    /// The common part of two rectangles, if it holds any point.
    pub open spec fn overlap(self, other: Rect) -> Option<Rect> {
        let x = if self.x >= other.x { self.x } else { other.x };
        let y = if self.y >= other.y { self.y } else { other.y };
        let right = if self.end_x() <= other.end_x() { self.end_x() } else { other.end_x() };
        let bottom = if self.end_y() <= other.end_y() { self.end_y() } else { other.end_y() };
        if right > x && bottom > y {
            Some(Rect { x, y, width: (right - x) as u32, height: (bottom - y) as u32 })
        } else {
            None
        }
    }

    pub fn right(self) -> (r: i64)
        ensures
            r == self.end_x(),
    {
        self.x as i64 + self.width as i64
    }

    pub fn bottom(self) -> (r: i64)
        ensures
            r == self.end_y(),
    {
        self.y as i64 + self.height as i64
    }

    pub fn intersect(self, other: Rect) -> (r: Option<Rect>)
        ensures
            r == self.overlap(other),
    {
        let x: i32 = if self.x >= other.x { self.x } else { other.x };
        let y: i32 = if self.y >= other.y { self.y } else { other.y };
        let right: i64 = if self.right() <= other.right() { self.right() } else { other.right() };
        let bottom: i64 = if self.bottom() <= other.bottom() {
            self.bottom()
        } else {
            other.bottom()
        };
        if right > x as i64 && bottom > y as i64 {
            Some(Rect {
                x,
                y,
                width: (right - x as i64) as u32,
                height: (bottom - y as i64) as u32,
            })
        } else {
            None
        }
    }
}

/// The overlap of two rectangles holds exactly the points that both hold.
pub proof fn overlap_holds_the_shared_points(a: Rect, b: Rect)
    ensures
        match a.overlap(b) {
            Some(r) => r.width > 0 && r.height > 0 && (forall|x: int, y: int|
                r.has(x, y) <==> a.has(x, y) && b.has(x, y)),
            None => forall|x: int, y: int| !(a.has(x, y) && b.has(x, y)),
        },
{
}

/// Which rectangle comes first does not matter.
pub proof fn overlap_is_symmetric(a: Rect, b: Rect)
    ensures
        a.overlap(b) == b.overlap(a),
{
}

/// A part of one output, in coordinates relative to it.
#[derive(Debug, Clone, PartialEq, Eq)]
pub struct Region {
    pub output: String,
    pub rect: Rect,
}

/// What a capture session shows.
#[derive(Debug, Clone, PartialEq, Eq)]
pub enum CaptureTarget {
    Output(String),
    Toplevel(String),
    Region(Region),
    DesktopRect(Rect),
}

} // verus!
