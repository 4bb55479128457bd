//! Core logic of a large-scale team dodgeball simulation: ball lifecycle and
//! claim arbitration, spatial occupancy with avoidance steering, squad
//! aggregate state, and routing of collision events.
//!
//! Positions, velocities and physical material parameters are carried as
//! fixed-point integers (thousandths of a world unit), so that the whole
//! simulation core is exact; the embedding layer converts to the floating
//! point values a physics engine expects.

pub mod aabb;
pub mod ball;
pub mod boundaries;
pub mod collision;
pub mod math;
pub mod occupancy_grid;
pub mod player;
pub mod squad;
