//! The ball: claim arbitration and the requests that move it between its
//! on-ground, held and thrown phases.

use crate::boundaries::Boundaries;
use crate::aabb::Aabb2;
use crate::collision::{BodyKind, CollisionGroups, BOUNDARIES, GROUND_BALL, PLAYER, QUERY, THROWN_BALL};
use crate::math::Vec3i;
use rand::Rng;
use vstd::prelude::*;

verus! {

/// Where a carried ball sits relative to its carrier (0.4 world units out).
pub const HELD_OFFSET_X: i64 = 400;

/// Density of a thrown ball, in thousandths: elevated so impacts carry.
pub const THROWN_DENSITY: i64 = 10_000;

/// Linear air damping of a thrown ball, in thousandths.
pub const THROWN_LINEAR_DAMPING: i64 = 800;

/// Angular damping of a thrown ball, in thousandths: full, so it stops spinning.
pub const THROWN_ANGULAR_DAMPING: i64 = 1_000;

/// Restitution of a thrown ball, in thousandths: bouncy.
pub const THROWN_RESTITUTION: i64 = 900;

/// Friction of a thrown ball, in thousandths.
pub const THROWN_FRICTION: i64 = 700;

/// A ball's contention state: one claim bit per squad, and whether some agent
/// is carrying it.
#[derive(Clone, Copy)]
pub struct Ball {
    /// When a squad's bit is set, some agent of that squad has declared the
    /// intent to retrieve this ball.
    claims_mask: u8,
    is_held: bool,
}

/// True when a claim with `mask` finds no prior claim from that squad.
pub open spec fn claim_granted(claims: u8, mask: u8) -> bool {
    claims & mask == 0
}

impl Ball {
    pub closed spec fn claims(self) -> u8 {
        self.claims_mask
    }

    pub closed spec fn held(self) -> bool {
        self.is_held
    }

    pub fn is_held(&self) -> (r: bool)
        ensures
            r == self.held(),
    {
        self.is_held
    }

    /// Filter of a ball at rest: arena boundaries and spatial queries only,
    /// so agents walk over it undeflected.
    pub fn ground_groups() -> (r: CollisionGroups)
        ensures
            r.memberships == GROUND_BALL,
            r.filters == (QUERY | BOUNDARIES),
    {
        CollisionGroups { memberships: GROUND_BALL, filters: QUERY | BOUNDARIES }
    }

    /// Filter of a ball in flight: it can strike players, other thrown balls
    /// and the arena, but never a ball at rest.
    pub fn thrown_groups() -> (r: CollisionGroups)
        ensures
            r.memberships == THROWN_BALL,
            r.filters == (THROWN_BALL | PLAYER | BOUNDARIES),
            r.filters & PLAYER != 0,
            r.filters & THROWN_BALL != 0,
            r.filters & GROUND_BALL == 0,
    {
        proof {
            assert((16u32 | 4u32 | 2u32) & 4u32 != 0) by (bit_vector);
            assert((16u32 | 4u32 | 2u32) & 16u32 != 0) by (bit_vector);
            assert((16u32 | 4u32 | 2u32) & 8u32 == 0) by (bit_vector);
        }
        CollisionGroups { memberships: THROWN_BALL, filters: THROWN_BALL | PLAYER | BOUNDARIES }
    }

    /// Registers a squad's claim. Returns true iff the squad had no prior
    /// claim, telling the caller it is free to proceed toward pick-up; it does
    /// not itself grant possession.
    pub fn claim(&mut self, mask: u8) -> (r: bool)
        ensures
            final(self).claims() == (old(self).claims() | mask),
            final(self).held() == old(self).held(),
            r == claim_granted(old(self).claims(), mask),
    {
        let already_claimed = self.is_claimed(mask);
        self.claims_mask = self.claims_mask | mask;
        !already_claimed
    }

    /// Withdraws a squad's claim (its agent abandoned pursuit).
    pub fn drop_claim(&mut self, mask: u8)
        ensures
            final(self).claims() == (old(self).claims() & !mask),
            final(self).held() == old(self).held(),
    {
        self.claims_mask = self.claims_mask & !mask;
    }

    pub fn is_claimed(&self, mask: u8) -> (r: bool)
        ensures
            r == !claim_granted(self.claims(), mask),
    {
        (self.claims_mask & mask) != 0
    }

    /// Resets every claim bit; invoked at the moment of a successful pick-up,
    /// so a freshly held ball carries no stale claim history.
    pub fn clear_claims(&mut self)
        ensures
            final(self).claims() == 0,
            final(self).held() == old(self).held(),
    {
        self.claims_mask = 0;
    }

    /// The sole operation that makes a ball held. Clears the claims, parks the
    /// ball at the carry offset under kinematic control, and blanks the
    /// collision filter so a carried ball triggers no further contacts.
    ///
    /// Picking up a ball that is already held is a caller bug, excluded here.
    pub fn pick_up(
        &mut self,
        translation: &mut Vec3i,
        body: &mut BodyKind,
        groups: &mut CollisionGroups,
    )
        requires
            !old(self).held(),
        ensures
            final(self).claims() == 0,
            final(self).held(),
            *final(translation) == held_offset(),
            *final(body) == BodyKind::KinematicPositionBased,
            final(groups).memberships == old(groups).memberships,
            final(groups).filters == 0,
    {
        self.clear_claims();
        self.is_held = true;
        *translation = Vec3i { x: HELD_OFFSET_X, y: 0, z: 0 };
        *body = BodyKind::KinematicPositionBased;
        // Don't appear in any collisions or queries until the ball is thrown.
        groups.filters = 0;
    }

    /// Marks a carried ball as no longer held, keeping its claim bits as they
    /// are; used when the carrier leaves play.
    pub fn release(&mut self)
        ensures
            final(self).claims() == old(self).claims(),
            !final(self).held(),
    {
        self.is_held = false;
    }

    /// The ball value with the given contention state.
    pub closed spec fn with_state(claims: u8, held: bool) -> Ball {
        Ball { claims_mask: claims, is_held: held }
    }
}

/// `with_state` means what it says: it fixes both observations of a ball.
pub broadcast proof fn lemma_ball_with_state(claims: u8, held: bool)
    ensures
        (#[trigger] Ball::with_state(claims, held)).claims() == claims,
        Ball::with_state(claims, held).held() == held,
{
}

/// A ball's contention state is all a ball is: equal observations make equal
/// values.
pub proof fn lemma_ball_eq(a: Ball, b: Ball)
    requires
        a.claims() == b.claims(),
        a.held() == b.held(),
    ensures
        a == b,
{
}

impl Default for Ball {
    /// A fresh ball: unclaimed and unheld.
    fn default() -> (r: Self)
        ensures
            r.claims() == 0,
            !r.held(),
    {
        Ball { claims_mask: 0, is_held: false }
    }
}

/// A single squad never gains by claiming twice: once its bit is set, a second
/// claim with the same nonzero mask is refused until the bit is cleared.
pub proof fn lemma_claim_idempotent(claims: u8, mask: u8)
    requires
        mask != 0,
    ensures
        !claim_granted(claims | mask, mask),
{
    assert((claims | mask) & mask != 0) by (bit_vector)
        requires
            mask != 0;
}

/// The carry offset as a point.
pub open spec fn held_offset() -> Vec3i {
    Vec3i { x: HELD_OFFSET_X, y: 0, z: 0 }
}

/// What the arena asks its physics and render collaborators to create for a
/// ball at rest on the floor.
pub struct GroundBallBundle {
    pub ball: Ball,
    pub translation: Vec3i,
    pub body: BodyKind,
    pub collider_radius: i64,
    pub groups: CollisionGroups,
}

/// The given position dropped onto the floor: its height becomes the ball's
/// radius, so the ball rests on the ground.
pub open spec fn on_floor(position: Vec3i, radius: i64) -> Vec3i {
    Vec3i { x: position.x, y: radius, z: position.z }
}

/// A well-formed request for a ball at rest at `position`: fresh claim state,
/// kinematic body, ground collision filter, and the position dropped onto the
/// floor and clamped into the arena.
pub open spec fn ground_bundle_ok(
    b: GroundBallBundle,
    radius: i64,
    bounds: Boundaries,
    position: Vec3i,
) -> bool {
    &&& b.ball.claims() == 0
    &&& !b.ball.held()
    &&& b.translation == bounds.clamp_spec(on_floor(position, radius))
    &&& b.body == BodyKind::KinematicPositionBased
    &&& b.collider_radius == radius
    &&& b.groups.memberships == GROUND_BALL
    &&& b.groups.filters == (QUERY | BOUNDARIES)
}

/// The request builds a fresh on-ground ball at some point of the floor
/// rectangle (before clamping into the arena bounds).
pub open spec fn spawned_in_aabb(
    b: GroundBallBundle,
    radius: i64,
    bounds: Boundaries,
    aabb: Aabb2,
) -> bool {
    exists|p: Vec3i|
        #[trigger] ground_bundle_ok(b, radius, bounds, p) && aabb.contains(
            crate::math::Vec2i { x: p.x, y: p.z },
        ) && p.y == 0
}

/// What the arena asks its collaborators to create for a ball released at a
/// throw: a dynamic body with continuous collision detection, elevated
/// density, strong air damping, high restitution and moderate friction.
pub struct ThrownBallBundle {
    pub ball: Ball,
    pub translation: Vec3i,
    pub body: BodyKind,
    pub collider_radius: i64,
    pub groups: CollisionGroups,
    pub ccd_enabled: bool,
    pub velocity: Vec3i,
    pub density: i64,
    pub linear_damping: i64,
    pub angular_damping: i64,
    pub restitution: i64,
    pub friction: i64,
}

impl Ball {
    /// Builds the request for a fresh ball resting at `position`.
    pub fn spawn_on_ground(radius: i64, bounds: &Boundaries, position: Vec3i) -> (b: GroundBallBundle)
        ensures
            ground_bundle_ok(b, radius, *bounds, position),
    {
        let floored = Vec3i { x: position.x, y: radius, z: position.z };
        GroundBallBundle {
            ball: Ball::default(),
            translation: bounds.clamp(floored),
            body: BodyKind::KinematicPositionBased,
            collider_radius: radius,
            groups: Ball::ground_groups(),
        }
    }

    /// Builds `n_balls` on-ground requests at positions drawn uniformly from
    /// the floor rectangle; each lands somewhere inside it (and, as always, is
    /// clamped into the arena bounds).
    pub fn spawn_multiple_in_aabb(
        radius: i64,
        bounds: &Boundaries,
        aabb: Aabb2,
        n_balls: usize,
    ) -> (v: Vec<GroundBallBundle>)
        requires
            aabb.wf(),
        ensures
            v.len() == n_balls,
            forall|i: int|
                0 <= i < n_balls ==> #[trigger] spawned_in_aabb(v@[i], radius, *bounds, aabb),
    {
        let mut v: Vec<GroundBallBundle> = Vec::new();
        let mut spawned: usize = 0;
        while spawned < n_balls
            invariant
                aabb.wf(),
                spawned <= n_balls,
                v.len() == spawned,
                forall|i: int|
                    0 <= i < spawned ==> #[trigger] spawned_in_aabb(v@[i], radius, *bounds, aabb),
            decreases n_balls - spawned,
        {
            let x = random_in_range(aabb.min.x, aabb.max.x);
            let z = random_in_range(aabb.min.y, aabb.max.y);
            let position = Vec3i { x, y: 0, z };
            let b = Ball::spawn_on_ground(radius, bounds, position);
            v.push(b);
            proof {
                assert(ground_bundle_ok(v@[spawned as int], radius, *bounds, position));
                assert(spawned_in_aabb(v@[spawned as int], radius, *bounds, aabb));
            }
            spawned = spawned + 1;
        }
        v
    }

    /// Builds the request for a ball released at `position` with the given
    /// initial velocity. The new ball is unheld and unclaimed; its filter lets
    /// it strike players and other thrown balls but never a ball at rest.
    pub fn spawn_thrown(radius: i64, position: Vec3i, velocity: Vec3i) -> (b: ThrownBallBundle)
        ensures
            b.ball.claims() == 0,
            !b.ball.held(),
            b.translation == position,
            b.body == BodyKind::Dynamic,
            b.collider_radius == radius,
            b.groups.memberships == THROWN_BALL,
            b.groups.filters == (THROWN_BALL | PLAYER | BOUNDARIES),
            b.groups.filters & PLAYER != 0,
            b.groups.filters & THROWN_BALL != 0,
            b.groups.filters & GROUND_BALL == 0,
            b.ccd_enabled,
            b.velocity == velocity,
            b.density == THROWN_DENSITY,
            b.linear_damping == THROWN_LINEAR_DAMPING,
            b.angular_damping == THROWN_ANGULAR_DAMPING,
            b.restitution == THROWN_RESTITUTION,
            b.friction == THROWN_FRICTION,
    {
        ThrownBallBundle {
            ball: Ball::default(),
            translation: position,
            body: BodyKind::Dynamic,
            collider_radius: radius,
            groups: Ball::thrown_groups(),
            ccd_enabled: true,
            velocity,
            density: THROWN_DENSITY,
            linear_damping: THROWN_LINEAR_DAMPING,
            angular_damping: THROWN_ANGULAR_DAMPING,
            restitution: THROWN_RESTITUTION,
            friction: THROWN_FRICTION,
        }
    }
}

/// Relies on rand 0.8's `Rng::gen_range` over the `i64` range `lo..hi`: it
/// panics only on an empty range and returns a value of the range.
#[verifier::external_body]
fn random_in_range(lo: i64, hi: i64) -> (r: i64)
    requires
        lo < hi,
    ensures
        lo <= r < hi,
{
    rand::thread_rng().gen_range(lo..hi)
}

} // verus!
