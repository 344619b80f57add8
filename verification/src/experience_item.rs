//! Experience pickups, dropped by defeated enemies and collected on contact.

use vstd::prelude::*;
use crate::geometry::MAX_SIZE;

verus! {

/// Experience granted by every dropped pickup.
pub const PICKUP_VALUE: u64 = 10;

/// Width and height of a pickup, in world units.
pub const PICKUP_SIZE: u64 = 10;

/// Bound on a single pickup's experience value, so that collecting a whole
/// frame's pickups cannot overflow the experience counter.
pub const MAX_PICKUP_VALUE: u64 = 1_000_000;

/// An experience pickup lying in the world.
#[derive(Clone, Copy, PartialEq, Eq, Structural)]
pub struct ExperienceItem {
    pub x: i64,
    pub y: i64,
    pub experience: u64,
    pub size_x: u64,
    pub size_y: u64,
}

impl ExperienceItem {
    /// Bounded value and extents.
    pub open spec fn wf(self) -> bool {
        &&& self.experience <= MAX_PICKUP_VALUE
        &&& self.size_x <= MAX_SIZE
        &&& self.size_y <= MAX_SIZE
    }
}

/// The pickup a defeated enemy leaves behind at a given position.
pub open spec fn dropped_at(x: i64, y: i64) -> ExperienceItem {
    ExperienceItem { x, y, experience: PICKUP_VALUE, size_x: PICKUP_SIZE, size_y: PICKUP_SIZE }
}

} // verus!
