//! The control point ("dot"): a pair of fixed-point coordinates.

use vstd::prelude::*;
use crate::fixed::MAX_COORD;

verus! {

/// A 2D control point; both coordinates are fixed-point `i64` values
/// (real value times [`crate::fixed::SCALE`]).
#[derive(Clone, Copy, PartialEq, Eq, Structural, Debug)]
pub struct Point {
    pub x: i64,
    pub y: i64,
}

impl Point {
    /// Both coordinates lie within the magnitude bound of the surface.
    pub open spec fn in_range(self) -> bool {
        -MAX_COORD <= self.x <= MAX_COORD && -MAX_COORD <= self.y <= MAX_COORD
    }
}

/// Every point of a sequence lies within the coordinate bound.
pub open spec fn all_in_range(s: Seq<Point>) -> bool {
    forall|i: int| 0 <= i < s.len() ==> #[trigger] s[i].in_range()
}

} // verus!
