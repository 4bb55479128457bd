use dodgeball::ball::Ball;
use dodgeball::collision::{
    handle_ball_floor_collision, handle_ball_player_collision, handle_ball_player_collisions,
    phase_of, throw_ball, Arena, BallPhase, BallPlayerContact, BallSim, BodyKind, BOUNDARIES,
    GROUND_BALL, PLAYER, QUERY, THROWN_BALL,
};
use dodgeball::math::{Vec2i, Vec3i};
use dodgeball::player::Player;
use dodgeball::squad::SquadStates;

fn agent(squad: u8, team: u8, x: i64, y: i64) -> Player {
    Player {
        squad,
        team,
        knocked_out: false,
        throwing: false,
        held_ball: None,
        position: Vec2i { x, y },
    }
}

fn ground_ball() -> BallSim {
    BallSim {
        ball: Ball::default(),
        translation: Vec3i { x: 0, y: 200, z: 0 },
        body: BodyKind::KinematicPositionBased,
        groups: Ball::ground_groups(),
        thrown_team: 0,
    }
}

fn thrown_ball(thrown_team: u8) -> BallSim {
    BallSim {
        ball: Ball::default(),
        translation: Vec3i { x: 0, y: 200, z: 0 },
        body: BodyKind::Dynamic,
        groups: Ball::thrown_groups(),
        thrown_team,
    }
}

#[test]
fn same_tick_race_gives_the_ball_to_the_first_claimant() {
    let mut arena = Arena {
        players: vec![agent(0, 0, 0, 0), agent(1, 1, 10, 0)],
        balls: vec![ground_ball()],
        squads: SquadStates::new(&vec![1, 1]),
    };
    // squad A's contact is routed first: fresh claim, pick-up binds to A
    handle_ball_player_collision(&mut arena, 0, 0);
    assert!(arena.balls[0].ball.is_held());
    assert_eq!(arena.players[0].held_ball, Some(0));
    assert_eq!(arena.squads.squads[0].num_holding_balls, 1);
    // squad B's same-tick contact still registers a claim (the pick-up
    // cleared the mask), but the router checks the held flag, not just the
    // claim result, and must not pick up again
    handle_ball_player_collision(&mut arena, 0, 1);
    assert!(arena.balls[0].ball.is_claimed(1 << 1));
    assert_eq!(arena.players[1].held_ball, None);
    assert!(arena.balls[0].ball.is_held());
    assert_eq!(arena.players[0].held_ball, Some(0));
    assert_eq!(arena.squads.squads[1].num_holding_balls, 0);
}

#[test]
fn second_claim_of_same_squad_does_not_grant() {
    let mut arena = Arena {
        players: vec![agent(0, 0, 0, 0)],
        balls: vec![ground_ball()],
        squads: SquadStates::new(&vec![1]),
    };
    // the squad's claim bit is set but the agent cannot carry two balls:
    // eligibility keeps it from even claiming while it holds one
    handle_ball_player_collision(&mut arena, 0, 0);
    assert_eq!(arena.players[0].held_ball, Some(0));
    handle_ball_player_collision(&mut arena, 0, 0);
    assert_eq!(arena.players[0].held_ball, Some(0));
    assert_eq!(arena.squads.squads[0].num_holding_balls, 1);
}

#[test]
fn thrown_ball_knocks_out_opponent_exactly_once() {
    let mut arena = Arena {
        players: vec![agent(0, 0, 0, 0), agent(1, 1, 5000, 0)],
        balls: vec![thrown_ball(0)],
        squads: SquadStates::new(&vec![1, 1]),
    };
    // ball thrown by team 0 with velocity (5,0,0) from (0, 0.2, 0) strikes
    // the team-1 agent
    handle_ball_player_collision(&mut arena, 0, 1);
    assert!(arena.players[1].knocked_out);
    assert_eq!(arena.squads.squads[1].num_players, 0);
    // a second contact frame must not decrement again
    handle_ball_player_collision(&mut arena, 0, 1);
    assert!(arena.players[1].knocked_out);
    assert_eq!(arena.squads.squads[1].num_players, 0);
}

#[test]
fn thrown_ball_spares_its_own_team() {
    let mut arena = Arena {
        players: vec![agent(0, 0, 0, 0)],
        balls: vec![thrown_ball(0)],
        squads: SquadStates::new(&vec![1]),
    };
    handle_ball_player_collision(&mut arena, 0, 0);
    assert!(!arena.players[0].knocked_out);
    assert_eq!(arena.squads.squads[0].num_players, 1);
}

#[test]
fn knockout_drops_the_carried_ball() {
    let mut arena = Arena {
        players: vec![agent(0, 0, 0, 0), agent(1, 1, 5000, 0)],
        balls: vec![ground_ball(), thrown_ball(0)],
        squads: SquadStates::new(&vec![1, 1]),
    };
    // the team-1 agent first picks up the ground ball
    handle_ball_player_collision(&mut arena, 0, 1);
    assert_eq!(arena.players[1].held_ball, Some(0));
    assert_eq!(arena.squads.squads[1].num_holding_balls, 1);
    // then team 0's throw strikes it: it leaves play and the ball drops
    handle_ball_player_collision(&mut arena, 1, 1);
    assert!(arena.players[1].knocked_out);
    assert_eq!(arena.players[1].held_ball, None);
    assert!(!arena.balls[0].ball.is_held());
    assert_eq!(arena.balls[0].body, BodyKind::KinematicPositionBased);
    assert_eq!(arena.squads.squads[1].num_holding_balls, 0);
    assert_eq!(arena.squads.squads[1].num_players, 0);
}

#[test]
fn ineligible_agents_are_skipped() {
    let mut knocked = agent(0, 0, 0, 0);
    knocked.knocked_out = true;
    let mut arena = Arena {
        players: vec![knocked],
        balls: vec![ground_ball()],
        squads: SquadStates::new(&vec![0]),
    };
    handle_ball_player_collision(&mut arena, 0, 0);
    assert!(!arena.balls[0].ball.is_held());
    assert!(!arena.balls[0].ball.is_claimed(0b1111_1111));
}

#[test]
fn stale_contact_indices_change_nothing() {
    let mut arena = Arena {
        players: vec![agent(0, 0, 0, 0)],
        balls: vec![ground_ball()],
        squads: SquadStates::new(&vec![1]),
    };
    handle_ball_player_collision(&mut arena, 7, 0);
    handle_ball_player_collision(&mut arena, 0, 7);
    assert!(!arena.balls[0].ball.is_held());
    assert_eq!(arena.players[0].held_ball, None);
}

#[test]
fn contacts_route_in_delivery_order() {
    let mut arena = Arena {
        players: vec![agent(0, 0, 0, 0), agent(1, 1, 10, 0)],
        balls: vec![ground_ball()],
        squads: SquadStates::new(&vec![1, 1]),
    };
    let events = vec![
        BallPlayerContact { ball: 0, player: 1 },
        BallPlayerContact { ball: 0, player: 0 },
    ];
    handle_ball_player_collisions(&mut arena, &events);
    // the first-delivered contact won the ball
    assert_eq!(arena.players[1].held_ball, Some(0));
    assert_eq!(arena.players[0].held_ball, None);
    assert_eq!(arena.squads.squads[1].num_holding_balls, 1);
}

#[test]
fn phase_follows_held_flag_and_body_kind() {
    assert_eq!(phase_of(&ground_ball()), BallPhase::OnGround);
    assert_eq!(phase_of(&thrown_ball(0)), BallPhase::Thrown);
    let mut arena = Arena {
        players: vec![agent(0, 0, 0, 0)],
        balls: vec![ground_ball()],
        squads: SquadStates::new(&vec![1]),
    };
    handle_ball_player_collision(&mut arena, 0, 0);
    assert_eq!(phase_of(&arena.balls[0]), BallPhase::Held);
}

#[test]
fn a_ball_cycles_through_ground_held_thrown() {
    let mut arena = Arena {
        players: vec![agent(0, 0, 0, 0), agent(1, 1, 5000, 0)],
        balls: vec![ground_ball()],
        squads: SquadStates::new(&vec![1, 1]),
    };
    // contact with the ground ball: claimed and picked up
    handle_ball_player_collision(&mut arena, 0, 0);
    assert_eq!(arena.players[0].held_ball, Some(0));
    // the carrier releases it toward the enemy
    throw_ball(&mut arena, 0, Vec3i { x: 0, y: 200, z: 0 });
    assert_eq!(arena.players[0].held_ball, None);
    assert_eq!(arena.squads.squads[0].num_holding_balls, 0);
    assert!(!arena.balls[0].ball.is_held());
    assert_eq!(arena.balls[0].body, BodyKind::Dynamic);
    assert_eq!(arena.balls[0].thrown_team, 0);
    assert_eq!(arena.balls[0].groups.filters, THROWN_BALL | PLAYER | BOUNDARIES);
    // in flight it strikes the opponent
    handle_ball_player_collision(&mut arena, 0, 1);
    assert!(arena.players[1].knocked_out);
    assert_eq!(arena.squads.squads[1].num_players, 0);
    // and its floor contact settles it back toward claimable ground state
    handle_ball_floor_collision(&mut arena, 0);
    assert_eq!(arena.balls[0].body, BodyKind::KinematicPositionBased);
    assert_eq!(arena.balls[0].groups.memberships, GROUND_BALL);
}

#[test]
fn floor_contact_settles_a_thrown_ball() {
    let mut arena = Arena {
        players: vec![],
        balls: vec![thrown_ball(0)],
        squads: SquadStates::new(&Vec::new()),
    };
    handle_ball_floor_collision(&mut arena, 0);
    assert_eq!(arena.balls[0].body, BodyKind::KinematicPositionBased);
    assert_eq!(arena.balls[0].groups.memberships, GROUND_BALL);
    assert_eq!(arena.balls[0].groups.filters, QUERY | BOUNDARIES);
    assert!(!arena.balls[0].ball.is_held());
    // a second floor contact is a no-op
    handle_ball_floor_collision(&mut arena, 0);
    assert_eq!(arena.balls[0].body, BodyKind::KinematicPositionBased);
}

#[test]
fn floor_contact_leaves_a_ground_ball_alone() {
    let mut arena = Arena {
        players: vec![],
        balls: vec![ground_ball()],
        squads: SquadStates::new(&Vec::new()),
    };
    let before = arena.balls[0].groups;
    handle_ball_floor_collision(&mut arena, 0);
    assert_eq!(arena.balls[0].groups, before);
    assert_eq!(arena.balls[0].groups.filters, QUERY | BOUNDARIES);
}
