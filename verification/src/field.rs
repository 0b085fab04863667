//! Static play-field geometry.
//!
//! All lengths in this crate are integer subunits: one world unit is
//! `UNIT` subunits.  The field is an axis-aligned box centred on the
//! origin, described by its half-extents.

use vstd::prelude::*;

verus! {

/// Subunits per world unit.
pub const UNIT: i64 = 1_000_000;

/// Largest half-extent a field may have.
pub const FIELD_MAX_EXTENT: i64 = 1_000_000_000_000;

/// Smallest half-width: the paddle must fit between the side walls.
pub const FIELD_MIN_HALF_WIDTH: i64 = 50_000_000;

/// Smallest half-height: the serve position must lie above the floor and
/// the paddle's top face must stay clear of the ceiling.
pub const FIELD_MIN_HALF_HEIGHT: i64 = 40_000_000;

/// Screen half-extents of the play field, in subunits.
#[derive(Clone, Copy, Debug, PartialEq, Eq, Structural)]
pub struct Field {
    pub half_width: i64,
    pub half_height: i64,
}

impl Field {
    /// Geometry every collision rule relies on: positive extents large
    /// enough to hold the paddle, the target and the serve position.
    pub open spec fn wf(self) -> bool {
        &&& FIELD_MIN_HALF_WIDTH <= self.half_width <= FIELD_MAX_EXTENT
        &&& FIELD_MIN_HALF_HEIGHT <= self.half_height <= FIELD_MAX_EXTENT
    }

    /// Build a field from its half-extents.
    pub fn new(half_width: i64, half_height: i64) -> (f: Field)
        requires
            FIELD_MIN_HALF_WIDTH <= half_width <= FIELD_MAX_EXTENT,
            FIELD_MIN_HALF_HEIGHT <= half_height <= FIELD_MAX_EXTENT,
        ensures
            f.half_width == half_width,
            f.half_height == half_height,
            f.wf(),
    {
        Field { half_width, half_height }
    }
}

} // verus!
