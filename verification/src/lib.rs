//! Core of a point-and-curve editor: an ordered store of 2D control points,
//! a segment preparer that sorts them and clamps phantom boundary points to
//! the drawing surface, and an interpolation engine that samples one of four
//! curve schemes into a dense polyline.
//!
//! All geometry is carried in fixed-point coordinates: an `i64` holds the
//! real value times [`fixed::SCALE`], so every algorithm is exact integer
//! arithmetic and its result is pinned by the contracts below.

pub mod catmull;
pub mod engine;
pub mod fixed;
pub mod hermite;
pub mod natural;
pub mod point;
pub mod prepare;
pub mod root;
pub mod session;
pub mod store;
