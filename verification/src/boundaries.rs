//! The arena's spatial bounds; spawn positions are clamped into them.

use crate::math::{clamp_i64, clamp_spec, Vec3i};
use vstd::prelude::*;

verus! {

#[derive(Clone, Copy, Debug, PartialEq, Eq, Structural)]
pub struct Boundaries {
    pub min: Vec3i,
    pub max: Vec3i,
}

impl Boundaries {
    pub open spec fn wf(self) -> bool {
        &&& self.min.ok()
        &&& self.max.ok()
        &&& self.min.x <= self.max.x
        &&& self.min.y <= self.max.y
        &&& self.min.z <= self.max.z
    }

    /// The point moved, componentwise, to the nearest point inside the bounds.
    pub open spec fn clamp_spec(self, p: Vec3i) -> Vec3i {
        Vec3i {
            x: clamp_spec(p.x, self.min.x, self.max.x),
            y: clamp_spec(p.y, self.min.y, self.max.y),
            z: clamp_spec(p.z, self.min.z, self.max.z),
        }
    }

    pub fn clamp(&self, p: Vec3i) -> (r: Vec3i)
        ensures
            r == self.clamp_spec(p),
    {
        Vec3i {
            x: clamp_i64(p.x, self.min.x, self.max.x),
            y: clamp_i64(p.y, self.min.y, self.max.y),
            z: clamp_i64(p.z, self.min.z, self.max.z),
        }
    }
}

} // verus!
