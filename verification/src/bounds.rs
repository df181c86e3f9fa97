//! The bounds checker: a pure predicate telling whether a coordinate falls
//! outside the grid extent.

use crate::model::in_grid;
use vstd::prelude::*;

verus! {

/// Returns true iff pos lies outside the grid extent [0, width) x [0, height).
pub fn out_of_bounds(pos: (i32, i32), width: i32, height: i32) -> (r: bool)
    ensures
        r == !in_grid(pos.0 as int, pos.1 as int, width as int, height as int),
{
    let (x, y) = pos;
    x < 0 || x >= width || y < 0 || y >= height
}

} // verus!
