//! Per-agent state: a grid position and a viewshed (sight radius, the most
//! recently computed visible coordinates, and the staleness flag of the
//! lazy-recompute protocol).

use vstd::prelude::*;

verus! {

/// An agent's location on the grid.
#[derive(Clone, Copy, PartialEq, Eq, Structural)]
pub struct Position {
    pub x: i32,
    pub y: i32,
}

/// An agent's sight: radius, the visible coordinates as of the most recent
/// recomputation, and the dirty flag. The flag is set by external movement
/// or spawn logic whenever position or range changes and cleared only by
/// the visibility pass.
pub struct Viewshed {
    pub visible_titles: Vec<(i32, i32)>,
    pub range: i32,
    pub dirty: bool,
}

impl Viewshed {
    /// A fresh viewshed starts dirty so the first tick computes it.
    pub fn new(range: i32) -> (v: Viewshed)
        ensures
            v.range == range,
            v.dirty,
            v.visible_titles@.len() == 0,
    {
        Viewshed { visible_titles: Vec::new(), range, dirty: true }
    }
}

} // verus!
