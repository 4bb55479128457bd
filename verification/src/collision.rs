//! Collision filtering groups and the router that turns raw contact events
//! into claim, pick-up and knock-out transitions.

use crate::ball::{claim_granted, held_offset, Ball};
use crate::math::Vec3i;
use crate::player::Player;
use crate::squad::{SquadState, SquadStates};
use vstd::prelude::*;

verus! {

broadcast use crate::ball::lemma_ball_with_state;

/// Membership bit for colliders that only answer spatial queries.
pub const QUERY: u32 = 1;

/// Membership bit for the arena walls and floor.
pub const BOUNDARIES: u32 = 2;

/// Membership bit for player bodies.
pub const PLAYER: u32 = 4;

/// Membership bit for balls resting on the ground.
pub const GROUND_BALL: u32 = 8;

/// Membership bit for balls in flight.
pub const THROWN_BALL: u32 = 16;

/// A pair of bitmasks handed to the physics collaborator: which groups this
/// collider belongs to, and which groups it may touch.
#[derive(Clone, Copy, Debug, PartialEq, Eq, Structural)]
pub struct CollisionGroups {
    pub memberships: u32,
    pub filters: u32,
}

/// The body-control mode requested from the physics collaborator.
#[derive(Clone, Copy, Debug, PartialEq, Eq, Structural)]
pub enum BodyKind {
    /// Moved only by the simulation (an on-ground or carried ball).
    KinematicPositionBased,
    /// Integrated freely by the physics engine (a thrown ball).
    Dynamic,
}

/// A resolved contact between a ball and an agent, as the physics
/// collaborator delivers it: at most one per colliding pair per tick.
#[derive(Clone, Copy, Debug, PartialEq, Eq, Structural)]
pub struct BallPlayerContact {
    pub ball: usize,
    pub player: usize,
}

/// One ball of the arena: its contention state plus the physical state the
/// core last requested for it.
#[derive(Clone, Copy)]
pub struct BallSim {
    pub ball: Ball,
    pub translation: Vec3i,
    pub body: BodyKind,
    pub groups: CollisionGroups,
    /// The team whose agent last threw this ball; read while it is in flight.
    pub thrown_team: u8,
}

/// A ball's phase, derived from its held flag and requested body kind.
#[derive(Clone, Copy, Debug, PartialEq, Eq, Structural)]
pub enum BallPhase {
    OnGround,
    Held,
    Thrown,
}

pub open spec fn phase(b: BallSim) -> BallPhase {
    if b.ball.held() {
        BallPhase::Held
    } else if b.body is Dynamic {
        BallPhase::Thrown
    } else {
        BallPhase::OnGround
    }
}

/// The phase a ball is in, derived from its held flag and body kind; no
/// fourth combination exists.
pub fn phase_of(b: &BallSim) -> (r: BallPhase)
    ensures
        r == phase(*b),
{
    if b.ball.is_held() {
        BallPhase::Held
    } else if b.body == BodyKind::Dynamic {
        BallPhase::Thrown
    } else {
        BallPhase::OnGround
    }
}

/// The whole match state this core owns.
pub struct Arena {
    pub players: Vec<Player>,
    pub balls: Vec<BallSim>,
    pub squads: SquadStates,
}

/// The arena's mathematical shadow.
#[verifier::ext_equal]
pub struct ArenaView {
    pub players: Seq<Player>,
    pub balls: Seq<BallSim>,
    pub squads: Seq<SquadState>,
}

impl View for Arena {
    type V = ArenaView;

    open spec fn view(&self) -> ArenaView {
        ArenaView { players: self.players@, balls: self.balls@, squads: self.squads.squads@ }
    }
}

/// How many agents satisfy `pred`.
pub open spec fn count_matching(players: Seq<Player>, pred: spec_fn(Player) -> bool) -> int
    decreases players.len(),
{
    if players.len() == 0 {
        0
    } else {
        count_matching(players.drop_last(), pred) + if pred(players.last()) {
            1int
        } else {
            0int
        }
    }
}

/// An agent of this squad still in play.
pub open spec fn alive_pred(squad: u8) -> spec_fn(Player) -> bool {
    |p: Player| p.squad == squad && !p.knocked_out
}

/// An agent of this squad carrying a ball.
pub open spec fn holding_pred(squad: u8) -> spec_fn(Player) -> bool {
    |p: Player| p.squad == squad && p.held_ball is Some
}

pub proof fn lemma_count_in_range(players: Seq<Player>, pred: spec_fn(Player) -> bool)
    ensures
        0 <= count_matching(players, pred) <= players.len(),
    decreases players.len(),
{
    if players.len() != 0 {
        lemma_count_in_range(players.drop_last(), pred);
    }
}

/// Replacing one agent moves the count by the difference of the two
/// indicator values.
pub proof fn lemma_count_update(
    players: Seq<Player>,
    k: int,
    p: Player,
    pred: spec_fn(Player) -> bool,
)
    requires
        0 <= k < players.len(),
    ensures
        count_matching(players.update(k, p), pred) == count_matching(players, pred) - (if pred(
            players[k],
        ) {
            1int
        } else {
            0int
        }) + (if pred(p) {
            1int
        } else {
            0int
        }),
    decreases players.len(),
{
    let s2 = players.update(k, p);
    if k == players.len() - 1 {
        assert(s2.drop_last() =~= players.drop_last());
    } else {
        assert(s2.drop_last() =~= players.drop_last().update(k, p));
        assert(s2.last() == players.last());
        lemma_count_update(players.drop_last(), k, p, pred);
    }
}

pub proof fn lemma_count_at_least_one(players: Seq<Player>, k: int, pred: spec_fn(Player) -> bool)
    requires
        0 <= k < players.len(),
        pred(players[k]),
    ensures
        count_matching(players, pred) >= 1,
    decreases players.len(),
{
    lemma_count_in_range(players.drop_last(), pred);
    if k < players.len() - 1 {
        lemma_count_at_least_one(players.drop_last(), k, pred);
    }
}

/// Well-formedness of the whole arena: squads within the claim-mask width,
/// carrying references valid and exclusive, a carried ball marked held and
/// its carrier in play, and the aggregate counters exactly the member counts.
pub open spec fn arena_wf(a: ArenaView) -> bool {
    &&& a.players.len() < 0xFFFF_FFFF
    &&& a.squads.len() <= 8
    &&& forall|k: int|
        0 <= k < a.players.len() ==> (#[trigger] a.players[k]).squad < a.squads.len()
    &&& forall|k: int|
        0 <= k < a.players.len() && (#[trigger] a.players[k]).held_ball is Some ==> {
            &&& a.players[k].held_ball.unwrap() < a.balls.len()
            &&& a.balls[a.players[k].held_ball.unwrap() as int].ball.held()
            &&& !a.players[k].knocked_out
        }
    &&& forall|k: int, l: int|
        0 <= k < a.players.len() && 0 <= l < a.players.len() && k != l && (#[trigger] a.players[k]).held_ball is Some
            ==> a.players[k].held_ball != (#[trigger] a.players[l]).held_ball
    &&& forall|s: int|
        0 <= s < a.squads.len() ==> {
            &&& (#[trigger] a.squads[s]).num_players == count_matching(
                a.players,
                alive_pred(s as u8),
            )
            &&& a.squads[s].num_holding_balls == count_matching(a.players, holding_pred(s as u8))
        }
}

/// No ball is ever carried by two agents: distinct players never hold the
/// same ball.
pub proof fn lemma_single_carrier(a: ArenaView, k: int, l: int)
    requires
        arena_wf(a),
        0 <= k < a.players.len(),
        0 <= l < a.players.len(),
        k != l,
        a.players[k].held_ball is Some,
    ensures
        a.players[l].held_ball != a.players[k].held_ball,
{
}

/// The claim bit a squad uses on a ball's mask.
pub open spec fn squad_bit(squad: u8) -> u8 {
    1u8 << squad
}

/// An agent that may pursue a ground ball: in play and empty-handed.
pub open spec fn eligible(p: Player) -> bool {
    !p.knocked_out && p.held_ball is None
}

/// Effect of an agent leaving play: it is marked out, a carried ball is
/// released in place as a ground ball (its claim bits kept: claims expire
/// only at pick-up), and the squad's counters drop.
pub open spec fn knockout_step(a: ArenaView, pi: int) -> ArenaView {
    let p = a.players[pi];
    let players1 = a.players.update(
        pi,
        Player {
            squad: p.squad,
            team: p.team,
            knocked_out: true,
            throwing: p.throwing,
            held_ball: None,
            position: p.position,
        },
    );
    let balls1 = if p.held_ball is Some {
        let hb = p.held_ball.unwrap() as int;
        let b = a.balls[hb];
        a.balls.update(
            hb,
            BallSim {
                ball: Ball::with_state(b.ball.claims(), false),
                translation: b.translation,
                body: BodyKind::KinematicPositionBased,
                groups: CollisionGroups { memberships: GROUND_BALL, filters: QUERY | BOUNDARIES },
                thrown_team: b.thrown_team,
            },
        )
    } else {
        a.balls
    };
    let s = a.squads[p.squad as int];
    let squads1 = a.squads.update(
        p.squad as int,
        SquadState {
            num_players: (s.num_players - 1) as u32,
            num_holding_balls: if p.held_ball is Some {
                (s.num_holding_balls - 1) as u32
            } else {
                s.num_holding_balls
            },
        },
    );
    ArenaView { players: players1, balls: balls1, squads: squads1 }
}

/// Effect of a successful pick-up: claims cleared, ball held and parked at
/// the carry offset under kinematic control with a blank filter, carrier
/// bound, and the squad's carrier count raised.
pub open spec fn pickup_step(a: ArenaView, bi: int, pi: int) -> ArenaView {
    let p = a.players[pi];
    let b = a.balls[bi];
    let players1 = a.players.update(
        pi,
        Player {
            squad: p.squad,
            team: p.team,
            knocked_out: p.knocked_out,
            throwing: p.throwing,
            held_ball: Some(bi as usize),
            position: p.position,
        },
    );
    let balls1 = a.balls.update(
        bi,
        BallSim {
            ball: Ball::with_state(0, true),
            translation: held_offset(),
            body: BodyKind::KinematicPositionBased,
            groups: CollisionGroups { memberships: b.groups.memberships, filters: 0 },
            thrown_team: b.thrown_team,
        },
    );
    let s = a.squads[p.squad as int];
    let squads1 = a.squads.update(
        p.squad as int,
        SquadState {
            num_players: s.num_players,
            num_holding_balls: (s.num_holding_balls + 1) as u32,
        },
    );
    ArenaView { players: players1, balls: balls1, squads: squads1 }
}

/// The router's transition for one resolved ball-agent contact.
///
/// A thrown ball knocks an opposing agent out of play, once: a knocked-out
/// agent absorbs nothing further. Otherwise an eligible agent registers its
/// squad's claim, and picks the ball up only when the claim was fresh and the
/// ball is not already held; the held check, not the claim result alone, is
/// what keeps a same-tick second contact from stealing a carried ball.
pub open spec fn step_ball_player(a: ArenaView, bi: int, pi: int) -> ArenaView {
    if !(0 <= bi < a.balls.len() && 0 <= pi < a.players.len()) {
        a
    } else {
        let b = a.balls[bi];
        let p = a.players[pi];
        if phase(b) is Thrown {
            if !p.knocked_out && p.team != b.thrown_team {
                knockout_step(a, pi)
            } else {
                a
            }
        } else {
            if eligible(p) {
                if claim_granted(b.ball.claims(), squad_bit(p.squad)) && !b.ball.held() {
                    pickup_step(a, bi, pi)
                } else {
                    ArenaView {
                        players: a.players,
                        balls: a.balls.update(
                            bi,
                            BallSim {
                                ball: Ball::with_state(
                                    b.ball.claims() | squad_bit(p.squad),
                                    b.ball.held(),
                                ),
                                translation: b.translation,
                                body: b.body,
                                groups: b.groups,
                                thrown_team: b.thrown_team,
                            },
                        ),
                        squads: a.squads,
                    }
                }
            } else {
                a
            }
        }
    }
}

/// Routes one resolved ball-agent contact, exactly as `step_ball_player`
/// says, and keeps the arena well-formed. Contacts with stale indices are
/// ignored.
pub fn handle_ball_player_collision(a: &mut Arena, bi: usize, pi: usize)
    requires
        arena_wf(old(a)@),
    ensures
        final(a)@ == step_ball_player(old(a)@, bi as int, pi as int),
        arena_wf(final(a)@),
{
    if bi >= a.balls.len() || pi >= a.players.len() {
        return ;
    }
    let p = a.players[pi];
    let ball_held = a.balls[bi].ball.is_held();
    let thrown = !ball_held && a.balls[bi].body == BodyKind::Dynamic;
    if thrown {
        if !p.knocked_out && p.team != a.balls[bi].thrown_team {
            // The agent leaves play; a carried ball drops in place.
            match p.held_ball {
                Some(hb) => {
                    let bref = &mut a.balls[hb];
                    bref.ball.release();
                    bref.body = BodyKind::KinematicPositionBased;
                    bref.groups = CollisionGroups {
                        memberships: GROUND_BALL,
                        filters: QUERY | BOUNDARIES,
                    };
                    proof {
                        crate::ball::lemma_ball_eq(
                            a.balls@[hb as int].ball,
                            Ball::with_state(old(a)@.balls[hb as int].ball.claims(), false),
                        );
                    }
                },
                None => {},
            }
            a.players[pi] = Player {
                squad: p.squad,
                team: p.team,
                knocked_out: true,
                throwing: p.throwing,
                held_ball: None,
                position: p.position,
            };
            let sq = p.squad as usize;
            let s = a.squads.squads[sq];
            proof {
                lemma_count_at_least_one(old(a)@.players, pi as int, alive_pred(p.squad));
                if p.held_ball is Some {
                    lemma_count_at_least_one(old(a)@.players, pi as int, holding_pred(p.squad));
                }
            }
            a.squads.squads[sq] = SquadState {
                num_players: s.num_players - 1,
                num_holding_balls: match p.held_ball {
                    Some(_) => s.num_holding_balls - 1,
                    None => s.num_holding_balls,
                },
            };
            proof {
                let pre = old(a)@;
                let post = knockout_step(pre, pi as int);
                assert(a@ =~= post);
                assert forall|si: int| 0 <= si < a@.squads.len() implies {
                    &&& (#[trigger] a@.squads[si]).num_players == count_matching(
                        a@.players,
                        alive_pred(si as u8),
                    )
                    &&& a@.squads[si].num_holding_balls == count_matching(
                        a@.players,
                        holding_pred(si as u8),
                    )
                } by {
                    lemma_count_update(pre.players, pi as int, a@.players[pi as int], alive_pred(si as u8));
                    lemma_count_update(pre.players, pi as int, a@.players[pi as int], holding_pred(si as u8));
                }
                assert(arena_wf(a@));
            }
        }
    } else {
        if !p.knocked_out && p.held_ball.is_none() {
            let bit: u8 = 1u8 << p.squad;
            let granted = a.balls[bi].ball.claim(bit);
            if granted && !ball_held {
                let bref = &mut a.balls[bi];
                bref.ball.pick_up(&mut bref.translation, &mut bref.body, &mut bref.groups);
                proof {
                    crate::ball::lemma_ball_eq(a.balls@[bi as int].ball, Ball::with_state(0, true));
                }
                a.players[pi] = Player {
                    squad: p.squad,
                    team: p.team,
                    knocked_out: p.knocked_out,
                    throwing: p.throwing,
                    held_ball: Some(bi),
                    position: p.position,
                };
                let sq = p.squad as usize;
                let s = a.squads.squads[sq];
                proof {
                    lemma_count_in_range(old(a)@.players, holding_pred(p.squad));
                }
                a.squads.squads[sq] = SquadState {
                    num_players: s.num_players,
                    num_holding_balls: s.num_holding_balls + 1,
                };
                proof {
                    let pre = old(a)@;
                    let post = pickup_step(pre, bi as int, pi as int);
                    assert(a@ =~= post);
                    // nobody else held this ball: it was not marked held
                    assert forall|l: int|
                        0 <= l < a@.players.len() && l != pi && (#[trigger] a@.players[l]).held_ball
                            is Some implies a@.players[l].held_ball.unwrap() != bi by {
                        assert(pre.players[l] == a@.players[l]);
                    }
                    assert forall|si: int| 0 <= si < a@.squads.len() implies {
                        &&& (#[trigger] a@.squads[si]).num_players == count_matching(
                            a@.players,
                            alive_pred(si as u8),
                        )
                        &&& a@.squads[si].num_holding_balls == count_matching(
                            a@.players,
                            holding_pred(si as u8),
                        )
                    } by {
                        lemma_count_update(pre.players, pi as int, a@.players[pi as int], alive_pred(si as u8));
                        lemma_count_update(pre.players, pi as int, a@.players[pi as int], holding_pred(si as u8));
                    }
                    assert(arena_wf(a@));
                }
            } else {
                proof {
                    let pre = old(a)@;
                    crate::ball::lemma_ball_eq(
                        a.balls@[bi as int].ball,
                        Ball::with_state(
                            pre.balls[bi as int].ball.claims() | squad_bit(p.squad),
                            pre.balls[bi as int].ball.held(),
                        ),
                    );
                    assert(a@ =~= step_ball_player(pre, bi as int, pi as int));
                    assert forall|si: int| 0 <= si < a@.squads.len() implies {
                        &&& (#[trigger] a@.squads[si]).num_players == count_matching(
                            a@.players,
                            alive_pred(si as u8),
                        )
                        &&& a@.squads[si].num_holding_balls == count_matching(
                            a@.players,
                            holding_pred(si as u8),
                        )
                    } by {}
                    assert(arena_wf(a@));
                }
            }
        }
    }
}

/// Effect of a carrier releasing its ball at a throw: the ball leaves the
/// carrier's hands fresh (unclaimed, unheld) as a dynamic body at the release
/// point, filtered to strike players and other thrown balls, tagged with the
/// throwing team; the squad's carrier count drops.
pub open spec fn throw_step(a: ArenaView, pi: int, release: Vec3i) -> ArenaView {
    if !(0 <= pi < a.players.len() && a.players[pi].held_ball is Some) {
        a
    } else {
        let p = a.players[pi];
        let hb = p.held_ball.unwrap() as int;
        let players1 = a.players.update(
            pi,
            Player {
                squad: p.squad,
                team: p.team,
                knocked_out: p.knocked_out,
                throwing: p.throwing,
                held_ball: None,
                position: p.position,
            },
        );
        let balls1 = a.balls.update(
            hb,
            BallSim {
                ball: Ball::with_state(0, false),
                translation: release,
                body: BodyKind::Dynamic,
                groups: CollisionGroups {
                    memberships: THROWN_BALL,
                    filters: THROWN_BALL | PLAYER | BOUNDARIES,
                },
                thrown_team: p.team,
            },
        );
        let s = a.squads[p.squad as int];
        let squads1 = a.squads.update(
            p.squad as int,
            SquadState {
                num_players: s.num_players,
                num_holding_balls: (s.num_holding_balls - 1) as u32,
            },
        );
        ArenaView { players: players1, balls: balls1, squads: squads1 }
    }
}

/// Releases the ball the agent carries as a throw from `release`. Throwing a
/// ball the agent does not hold is a caller bug, excluded by contract.
pub fn throw_ball(a: &mut Arena, pi: usize, release: Vec3i)
    requires
        arena_wf(old(a)@),
        (pi as int) < old(a)@.players.len(),
        old(a)@.players[pi as int].held_ball is Some,
    ensures
        final(a)@ == throw_step(old(a)@, pi as int, release),
        arena_wf(final(a)@),
{
    let p = a.players[pi];
    match p.held_ball {
        Some(hb) => {
            let bref = &mut a.balls[hb];
            bref.ball = Ball::default();
            bref.translation = release;
            bref.body = BodyKind::Dynamic;
            bref.groups = Ball::thrown_groups();
            bref.thrown_team = p.team;
            proof {
                crate::ball::lemma_ball_eq(a.balls@[hb as int].ball, Ball::with_state(0, false));
            }
            a.players[pi] = Player {
                squad: p.squad,
                team: p.team,
                knocked_out: p.knocked_out,
                throwing: p.throwing,
                held_ball: None,
                position: p.position,
            };
            let sq = p.squad as usize;
            let s = a.squads.squads[sq];
            proof {
                lemma_count_at_least_one(old(a)@.players, pi as int, holding_pred(p.squad));
            }
            a.squads.squads[sq] = SquadState {
                num_players: s.num_players,
                num_holding_balls: s.num_holding_balls - 1,
            };
            proof {
                let pre = old(a)@;
                assert(a@ =~= throw_step(pre, pi as int, release));
                assert forall|si: int| 0 <= si < a@.squads.len() implies {
                    &&& (#[trigger] a@.squads[si]).num_players == count_matching(
                        a@.players,
                        alive_pred(si as u8),
                    )
                    &&& a@.squads[si].num_holding_balls == count_matching(
                        a@.players,
                        holding_pred(si as u8),
                    )
                } by {
                    lemma_count_update(pre.players, pi as int, a@.players[pi as int], alive_pred(si as u8));
                    lemma_count_update(pre.players, pi as int, a@.players[pi as int], holding_pred(si as u8));
                }
                assert(arena_wf(a@));
            }
        },
        None => {},
    }
}

/// The arena after a tick's ball-agent contacts, routed in delivery order.
pub open spec fn route_ball_player_contacts(
    a: ArenaView,
    events: Seq<BallPlayerContact>,
) -> ArenaView
    decreases events.len(),
{
    if events.len() == 0 {
        a
    } else {
        step_ball_player(
            route_ball_player_contacts(a, events.drop_last()),
            events.last().ball as int,
            events.last().player as int,
        )
    }
}

/// Routes every ball-agent contact of the tick, sequentially and in delivery
/// order; the sequential order is what arbitrates same-tick races.
pub fn handle_ball_player_collisions(a: &mut Arena, events: &Vec<BallPlayerContact>)
    requires
        arena_wf(old(a)@),
    ensures
        final(a)@ == route_ball_player_contacts(old(a)@, events@),
        arena_wf(final(a)@),
{
    let mut i: usize = 0;
    while i < events.len()
        invariant
            i <= events@.len(),
            arena_wf(a@),
            a@ == route_ball_player_contacts(old(a)@, events@.take(i as int)),
        decreases events@.len() - i,
    {
        let e = events[i];
        handle_ball_player_collision(a, e.ball, e.player);
        proof {
            assert(events@.take(i as int + 1).drop_last() =~= events@.take(i as int));
            assert(events@.take(i as int + 1).last() == events@[i as int]);
        }
        i = i + 1;
    }
    proof {
        assert(events@.take(events@.len() as int) =~= events@);
    }
}

/// A thrown ball touching the floor settles back toward ground-claimable
/// state: kinematic control and the ground filter, the claim bits untouched
/// (claims expire only at pick-up). Floor contacts of held or on-ground balls
/// change nothing.
pub open spec fn step_ball_floor(a: ArenaView, bi: int) -> ArenaView {
    if 0 <= bi < a.balls.len() && phase(a.balls[bi]) is Thrown {
        let b = a.balls[bi];
        ArenaView {
            players: a.players,
            balls: a.balls.update(
                bi,
                BallSim {
                    ball: b.ball,
                    translation: b.translation,
                    body: BodyKind::KinematicPositionBased,
                    groups: CollisionGroups {
                        memberships: GROUND_BALL,
                        filters: QUERY | BOUNDARIES,
                    },
                    thrown_team: b.thrown_team,
                },
            ),
            squads: a.squads,
        }
    } else {
        a
    }
}

/// Routes one ball-floor contact, exactly as `step_ball_floor` says.
pub fn handle_ball_floor_collision(a: &mut Arena, bi: usize)
    requires
        arena_wf(old(a)@),
    ensures
        final(a)@ == step_ball_floor(old(a)@, bi as int),
        arena_wf(final(a)@),
{
    if bi >= a.balls.len() {
        return ;
    }
    let held = a.balls[bi].ball.is_held();
    if !held && a.balls[bi].body == BodyKind::Dynamic {
        let bref = &mut a.balls[bi];
        bref.body = BodyKind::KinematicPositionBased;
        bref.groups = CollisionGroups { memberships: GROUND_BALL, filters: QUERY | BOUNDARIES };
        proof {
            assert(a@ =~= step_ball_floor(old(a)@, bi as int));
        }
    }
}

/// The arena after a tick's ball-floor contacts, in delivery order.
pub open spec fn route_ball_floor_contacts(a: ArenaView, balls: Seq<usize>) -> ArenaView
    decreases balls.len(),
{
    if balls.len() == 0 {
        a
    } else {
        step_ball_floor(route_ball_floor_contacts(a, balls.drop_last()), balls.last() as int)
    }
}

/// Routes every ball-floor contact of the tick, in order.
pub fn handle_ball_floor_collisions(a: &mut Arena, balls: &Vec<usize>)
    requires
        arena_wf(old(a)@),
    ensures
        final(a)@ == route_ball_floor_contacts(old(a)@, balls@),
        arena_wf(final(a)@),
{
    let mut i: usize = 0;
    while i < balls.len()
        invariant
            i <= balls@.len(),
            arena_wf(a@),
            a@ == route_ball_floor_contacts(old(a)@, balls@.take(i as int)),
        decreases balls@.len() - i,
    {
        let b = balls[i];
        handle_ball_floor_collision(a, b);
        proof {
            assert(balls@.take(i as int + 1).drop_last() =~= balls@.take(i as int));
            assert(balls@.take(i as int + 1).last() == balls@[i as int]);
        }
        i = i + 1;
    }
    proof {
        assert(balls@.take(balls@.len() as int) =~= balls@);
    }
}

} // verus!
