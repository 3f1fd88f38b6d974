//! Axis-aligned rectangle used for room geometry: intersection test and
//! integer center point.

use vstd::prelude::*;

verus! {

/// A rectangle with top-left corner (x1, y1) and bottom-right corner
/// (x2, y2); both boundary lines belong to the rectangle for the purposes
/// of the intersection test.
#[derive(Clone, Copy, PartialEq, Eq, Structural)]
pub struct Rect {
    pub x1: i32,
    pub y1: i32,
    pub x2: i32,
    pub y2: i32,
}

impl Rect {
    /// A rectangle is well formed when it has positive extent on both axes.
    pub open spec fn wf(self) -> bool {
        self.x1 < self.x2 && self.y1 < self.y2
    }

    /// The closed regions [x1, x2] x [y1, y2] of the two rectangles overlap;
    /// rectangles sharing only an edge or a corner count as intersecting.
    pub open spec fn spec_intersect(self, other: Rect) -> bool {
        self.x1 <= other.x2 && self.x2 >= other.x1 && self.y1 <= other.y2 && self.y2
            >= other.y1
    }

    /// The integer midpoint of the rectangle, by floor division.
    pub open spec fn spec_center(self) -> (int, int) {
        ((self.x1 + self.x2) as int / 2, (self.y1 + self.y2) as int / 2)
    }

    pub fn new(x: i32, y: i32, w: i32, h: i32) -> (r: Rect)
        requires
            0 < w,
            0 < h,
            x + w <= i32::MAX,
            y + h <= i32::MAX,
        ensures
            r.x1 == x,
            r.y1 == y,
            r.x2 == x + w,
            r.y2 == y + h,
            r.wf(),
    {
        Rect { x1: x, y1: y, x2: x + w, y2: y + h }
    }

    pub fn intersect(&self, other: &Rect) -> (r: bool)
        ensures
            r == self.spec_intersect(*other),
    {
        self.x1 <= other.x2 && self.x2 >= other.x1 && self.y1 <= other.y2 && self.y2
            >= other.y1
    }

    pub fn center(&self) -> (c: (i32, i32))
        requires
            self.wf(),
            0 <= self.x1,
            0 <= self.y1,
            self.x1 + self.x2 <= i32::MAX,
            self.y1 + self.y2 <= i32::MAX,
        ensures
            (c.0 as int, c.1 as int) == self.spec_center(),
    {
        ((self.x1 + self.x2) / 2, (self.y1 + self.y2) / 2)
    }

    /// A rectangle with extent at least 2 on both axes has its center
    /// strictly inside its border line.
    pub proof fn lemma_center_in_interior(self)
        requires
            self.x1 + 2 <= self.x2,
            self.y1 + 2 <= self.y2,
        ensures
            self.x1 < self.spec_center().0 < self.x2,
            self.y1 < self.spec_center().1 < self.y2,
    {
        vstd::arithmetic::div_mod::lemma_fundamental_div_mod(self.x1 + self.x2, 2);
        vstd::arithmetic::div_mod::lemma_fundamental_div_mod(self.y1 + self.y2, 2);
    }
}

} // verus!
