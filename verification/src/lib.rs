//! Wire-path crossing finder.
//!
//! Two wire paths are described as sequences of directional moves on an
//! integer grid. Each path is rebuilt as a chain of axis-aligned segments
//! anchored at the origin; the library computes every grid point where the
//! two chains cross and selects the crossing closest to the origin by
//! Manhattan distance, the origin itself excluded.

pub mod line;
pub mod myerror;
pub mod path;
pub mod point;
