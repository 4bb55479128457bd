use dodgeball::ball::{
    Ball, HELD_OFFSET_X, THROWN_ANGULAR_DAMPING, THROWN_DENSITY, THROWN_FRICTION,
    THROWN_LINEAR_DAMPING, THROWN_RESTITUTION,
};
use dodgeball::boundaries::Boundaries;
use dodgeball::aabb::Aabb2;
use dodgeball::collision::{
    BodyKind, BOUNDARIES, GROUND_BALL, PLAYER, QUERY, THROWN_BALL,
};
use dodgeball::math::{Vec2i, Vec3i};
use dodgeball::squad::{SquadState, SquadStates};

#[test]
fn claim_is_idempotent_per_squad() {
    let mut ball = Ball::default();
    assert!(ball.claim(0b0000_0001));
    // a second claim from the same squad without an intervening clear is refused
    assert!(!ball.claim(0b0000_0001));
    // a different squad still gets a fresh claim
    assert!(ball.claim(0b0000_0010));
    assert!(!ball.claim(0b0000_0010));
}

#[test]
fn drop_claim_reopens_the_claim() {
    let mut ball = Ball::default();
    assert!(ball.claim(0b0000_0100));
    ball.drop_claim(0b0000_0100);
    assert!(!ball.is_claimed(0b0000_0100));
    assert!(ball.claim(0b0000_0100));
}

#[test]
fn clear_claims_resets_every_bit() {
    let mut ball = Ball::default();
    assert!(ball.claim(0b0000_0001));
    assert!(ball.claim(0b0000_1000));
    ball.clear_claims();
    assert!(!ball.is_claimed(0b1111_1111));
}

#[test]
fn pick_up_clears_claims_and_holds() {
    let mut ball = Ball::default();
    assert!(ball.claim(0b0000_0011));
    let mut translation = Vec3i { x: 777, y: 777, z: 777 };
    let mut body = BodyKind::Dynamic;
    let mut groups = Ball::ground_groups();
    ball.pick_up(&mut translation, &mut body, &mut groups);
    assert!(ball.is_held());
    assert!(!ball.is_claimed(0b1111_1111));
    assert_eq!(translation, Vec3i { x: HELD_OFFSET_X, y: 0, z: 0 });
    assert_eq!(body, BodyKind::KinematicPositionBased);
    // a held ball matches nothing until thrown
    assert_eq!(groups.filters, 0);
    assert_eq!(groups.memberships, GROUND_BALL);
}

#[test]
fn ground_filter_ignores_players() {
    let g = Ball::ground_groups();
    assert_eq!(g.memberships, GROUND_BALL);
    assert_eq!(g.filters, QUERY | BOUNDARIES);
    assert_eq!(g.filters & PLAYER, 0);
}

#[test]
fn thrown_filter_hits_players_not_ground_balls() {
    let b = Ball::spawn_thrown(200, Vec3i { x: 0, y: 200, z: 0 }, Vec3i { x: 5000, y: 0, z: 0 });
    assert_ne!(b.groups.filters & PLAYER, 0);
    assert_ne!(b.groups.filters & THROWN_BALL, 0);
    assert_eq!(b.groups.filters & GROUND_BALL, 0);
    assert_eq!(b.groups.memberships, THROWN_BALL);
}

#[test]
fn spawn_thrown_builds_the_dynamic_request() {
    let b = Ball::spawn_thrown(200, Vec3i { x: 0, y: 200, z: 0 }, Vec3i { x: 5000, y: 0, z: 0 });
    assert!(!b.ball.is_held());
    assert!(!b.ball.is_claimed(0b1111_1111));
    assert_eq!(b.translation, Vec3i { x: 0, y: 200, z: 0 });
    assert_eq!(b.velocity, Vec3i { x: 5000, y: 0, z: 0 });
    assert_eq!(b.body, BodyKind::Dynamic);
    assert_eq!(b.collider_radius, 200);
    assert!(b.ccd_enabled);
    assert_eq!(b.density, THROWN_DENSITY);
    assert_eq!(b.linear_damping, THROWN_LINEAR_DAMPING);
    assert_eq!(b.angular_damping, THROWN_ANGULAR_DAMPING);
    assert_eq!(b.restitution, THROWN_RESTITUTION);
    assert_eq!(b.friction, THROWN_FRICTION);
}

#[test]
fn spawn_on_ground_floors_and_clamps() {
    let bounds = Boundaries {
        min: Vec3i { x: -1000, y: -1000, z: -1000 },
        max: Vec3i { x: 1000, y: 1000, z: 1000 },
    };
    let b = Ball::spawn_on_ground(200, &bounds, Vec3i { x: 5000, y: 0, z: -5000 });
    assert_eq!(b.translation, Vec3i { x: 1000, y: 200, z: -1000 });
    assert_eq!(b.body, BodyKind::KinematicPositionBased);
    assert_eq!(b.groups.filters, QUERY | BOUNDARIES);
    assert!(!b.ball.is_held());
}

#[test]
fn spawn_multiple_lands_inside_the_rectangle() {
    let bounds = Boundaries {
        min: Vec3i { x: -100_000, y: -100_000, z: -100_000 },
        max: Vec3i { x: 100_000, y: 100_000, z: 100_000 },
    };
    let aabb = Aabb2 { min: Vec2i { x: 0, y: 0 }, max: Vec2i { x: 1000, y: 1000 } };
    let v = Ball::spawn_multiple_in_aabb(200, &bounds, aabb, 50);
    assert_eq!(v.len(), 50);
    for b in &v {
        assert!(b.translation.x >= 0 && b.translation.x < 1000);
        assert!(b.translation.z >= 0 && b.translation.z < 1000);
        assert_eq!(b.translation.y, 200);
        assert_eq!(b.body, BodyKind::KinematicPositionBased);
        assert!(!b.ball.is_held());
    }
}

#[test]
fn ball_percent_truncates() {
    let s = SquadState { num_players: 10, num_holding_balls: 3 };
    assert_eq!(s.ball_percent(), 30);
    let t = SquadState { num_players: 3, num_holding_balls: 1 };
    assert_eq!(t.ball_percent(), 33);
    let u = SquadState { num_players: 0, num_holding_balls: 0 };
    assert_eq!(u.ball_percent(), 0);
    let v = SquadState { num_players: 4, num_holding_balls: 4 };
    assert_eq!(v.ball_percent(), 100);
}

#[test]
fn squad_states_start_with_rosters() {
    let sizes: Vec<u32> = vec![750, 750, 10];
    let states = SquadStates::new(&sizes);
    assert_eq!(states.squads.len(), 3);
    assert_eq!(states.squads[0].num_players, 750);
    assert_eq!(states.squads[2].num_players, 10);
    assert_eq!(states.squads[1].num_holding_balls, 0);
}
