//! Points and boxes on the integer grid.

use vstd::prelude::*;

verus! {

/// A position on the grid.
#[derive(Clone, Copy, Debug, PartialEq, Eq, Structural)]
pub struct Point {
    pub x: i64,
    pub y: i64,
}

/// An axis-aligned box, given by its least and its greatest corner.
#[derive(Clone, Copy, Debug, PartialEq, Eq, Structural)]
pub struct Rect {
    pub min: Point,
    pub max: Point,
}

impl Rect {
    /// A box is well formed when its least corner is not beyond its greatest.
    pub open spec fn wf(&self) -> bool {
        self.min.x <= self.max.x && self.min.y <= self.max.y
    }

    /// The horizontal extent of the box.
    pub open spec fn width(&self) -> int {
        self.max.x - self.min.x
    }

    /// The vertical extent of the box.
    pub open spec fn height(&self) -> int {
        self.max.y - self.min.y
    }
}

/// The failure of an operation whose result would hold a coordinate that is
/// no 64-bit integer.
#[derive(Clone, Copy, Debug, PartialEq, Eq, Structural)]
pub struct OutOfRange;

/// Whether a number can be held as a coordinate.
pub open spec fn fits(v: int) -> bool {
    i64::MIN <= v <= i64::MAX
}

} // verus!
