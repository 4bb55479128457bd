//! Axis-aligned boxes on the arena floor.

use crate::math::Vec2i;
use vstd::prelude::*;

verus! {

/// A floor rectangle; `min.y`/`max.y` bound the world `z` axis.
#[derive(Clone, Copy, Debug, PartialEq, Eq, Structural)]
pub struct Aabb2 {
    pub min: Vec2i,
    pub max: Vec2i,
}

impl Aabb2 {
    /// A rectangle with positive area on both axes.
    pub open spec fn wf(self) -> bool {
        &&& self.min.ok()
        &&& self.max.ok()
        &&& self.min.x < self.max.x
        &&& self.min.y < self.max.y
    }

    pub open spec fn contains(self, p: Vec2i) -> bool {
        &&& self.min.x <= p.x < self.max.x
        &&& self.min.y <= p.y < self.max.y
    }
}

} // verus!
