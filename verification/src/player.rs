//! Agents: identity, life state, carried ball, and avoidance steering.

use crate::math::{clamp_int, dist2, distance_squared, Vec2i};
use vstd::arithmetic::div_mod::lemma_div_pos_is_pos;
use vstd::prelude::*;

verus! {

/// One agent of the match. `held_ball` indexes into the arena's balls and is
/// the sole record of carrying; the arena invariant keeps it exclusive.
#[derive(Clone, Copy, Debug, PartialEq, Eq, Structural)]
pub struct Player {
    /// Index of the squad this agent belongs to; squads are numbered below
    /// the claim-mask width.
    pub squad: u8,
    /// The team the squad fights for.
    pub team: u8,
    /// Set once the agent is struck out of play; never reset.
    pub knocked_out: bool,
    /// Mid-throw animation: such an agent contributes no repulsion.
    pub throwing: bool,
    /// The ball this agent carries, if any.
    pub held_ball: Option<usize>,
    /// Authoritative floor position, read back from the physics collaborator.
    pub position: Vec2i,
}

/// Neighbors repel out to this floor distance (two world units).
pub const AVOID_RADIUS: i64 = 2_000;

/// Numerator scale of the inverse-distance repulsion weight.
pub const REPULSE_SCALE: i64 = 1_000_000;

/// Largest repulsion one neighbor contributes per axis.
pub const REPULSE_MAX: i64 = 2_000;

/// The magnitude one axis of a neighbor's repulsion takes: the axis offset,
/// weighted inversely by squared distance, clamped to the per-neighbor cap.
pub open spec fn repulse_magnitude(delta: int, d2: int) -> int {
    clamp_int(vstd::math::abs(delta) * REPULSE_SCALE / d2, 0, REPULSE_MAX as int)
}

/// Repulsion one neighbor contributes along one axis: directed away from the
/// neighbor. Agents out of play or mid-throw push nobody, a co-located
/// neighbor gives no direction, and one beyond the query radius is ignored.
pub open spec fn repulse_axis(delta: int, d2: int, excluded: bool) -> int {
    if excluded || d2 == 0 || d2 > AVOID_RADIUS * AVOID_RADIUS {
        0
    } else if delta < 0 {
        -repulse_magnitude(delta, d2)
    } else {
        repulse_magnitude(delta, d2)
    }
}

pub open spec fn excluded_from_repulsion(o: Player) -> bool {
    o.knocked_out || o.throwing
}

/// Total repulsion along the floor x axis that `others` exert at `p`.
pub open spec fn repulsion_x(p: Vec2i, others: Seq<Player>) -> int
    decreases others.len(),
{
    if others.len() == 0 {
        0
    } else {
        repulsion_x(p, others.drop_last()) + repulse_axis(
            p.x - others.last().position.x,
            dist2(p, others.last().position),
            excluded_from_repulsion(others.last()),
        )
    }
}

/// Total repulsion along the floor z axis that `others` exert at `p`.
pub open spec fn repulsion_y(p: Vec2i, others: Seq<Player>) -> int
    decreases others.len(),
{
    if others.len() == 0 {
        0
    } else {
        repulsion_y(p, others.drop_last()) + repulse_axis(
            p.y - others.last().position.y,
            dist2(p, others.last().position),
            excluded_from_repulsion(others.last()),
        )
    }
}

/// An agent with no neighbor inside the query radius feels no net repulsion:
/// its movement intent passes through avoidance untouched.
pub proof fn lemma_no_neighbors_no_repulsion(p: Vec2i, others: Seq<Player>)
    requires
        forall|j: int|
            0 <= j < others.len() ==> dist2(p, (#[trigger] others[j]).position) > AVOID_RADIUS
                * AVOID_RADIUS,
    ensures
        repulsion_x(p, others) == 0,
        repulsion_y(p, others) == 0,
    decreases others.len(),
{
    if others.len() != 0 {
        assert(others.last() == others[others.len() - 1]);
        lemma_no_neighbors_no_repulsion(p, others.drop_last());
    }
}

/// Avoidance steering marker; its system blends local repulsion into each
/// agent's movement intent before physics integrates the tick.
pub struct AvoidPlayers;

impl AvoidPlayers {
    /// Blends into `intent` a repulsion pushing the agent away from every
    /// in-play neighbor within the query radius, weighted inversely by
    /// distance. With no contributing neighbor the intent passes through
    /// unchanged.
    pub fn avoid_other_players(my_pos: Vec2i, intent: Vec2i, others: &Vec<Player>) -> (r: Vec2i)
        requires
            my_pos.ok(),
            intent.ok(),
            others@.len() <= 1_000_000,
            forall|j: int| 0 <= j < others@.len() ==> (#[trigger] others@[j]).position.ok(),
        ensures
            r.x == intent.x + repulsion_x(my_pos, others@),
            r.y == intent.y + repulsion_y(my_pos, others@),
            others@.len() == 0 ==> r == intent,
    {
        let mut rx: i64 = 0;
        let mut ry: i64 = 0;
        let mut j: usize = 0;
        while j < others.len()
            invariant
                my_pos.ok(),
                others@.len() <= 1_000_000,
                forall|k: int| 0 <= k < others@.len() ==> (#[trigger] others@[k]).position.ok(),
                j <= others@.len(),
                rx == repulsion_x(my_pos, others@.take(j as int)),
                ry == repulsion_y(my_pos, others@.take(j as int)),
                -(j as int) * (REPULSE_MAX as int) <= rx <= (j as int) * (REPULSE_MAX as int),
                -(j as int) * (REPULSE_MAX as int) <= ry <= (j as int) * (REPULSE_MAX as int),
            decreases others@.len() - j,
        {
            let o = others[j];
            let excluded = o.knocked_out || o.throwing;
            let d2 = distance_squared(my_pos, o.position);
            let mut cx: i64 = 0;
            let mut cy: i64 = 0;
            if !excluded && d2 != 0 && d2 <= AVOID_RADIUS * AVOID_RADIUS {
                cx = Self::axis_repulse(my_pos.x, o.position.x, d2);
                cy = Self::axis_repulse(my_pos.y, o.position.y, d2);
            }
            proof {
                assert(cx == repulse_axis(
                    my_pos.x - o.position.x,
                    dist2(my_pos, o.position),
                    excluded_from_repulsion(o),
                ));
                assert(cy == repulse_axis(
                    my_pos.y - o.position.y,
                    dist2(my_pos, o.position),
                    excluded_from_repulsion(o),
                ));
                assert(others@.take(j as int + 1).drop_last() =~= others@.take(j as int));
                assert(others@.take(j as int + 1).last() == others@[j as int]);
            }
            rx = rx + cx;
            ry = ry + cy;
            j = j + 1;
        }
        proof {
            assert(others@.take(others@.len() as int) =~= others@);
            if others@.len() == 0 {
                assert(repulsion_x(my_pos, others@) == 0);
                assert(repulsion_y(my_pos, others@) == 0);
            }
        }
        Vec2i { x: intent.x + rx, y: intent.y + ry }
    }

    /// One axis of one neighbor's repulsion, for a neighbor that does repel.
    fn axis_repulse(mine: i64, theirs: i64, d2: i64) -> (c: i64)
        requires
            -2_000_000_000 <= mine - theirs <= 2_000_000_000,
            0 < d2 <= AVOID_RADIUS * AVOID_RADIUS,
        ensures
            c == repulse_axis(mine - theirs, d2 as int, false),
            -REPULSE_MAX <= c <= REPULSE_MAX,
    {
        let delta = mine - theirs;
        let mag = if delta < 0 {
            -delta
        } else {
            delta
        };
        proof {
            assert(0 <= mag * REPULSE_SCALE <= 2_000_000_000_000_000_000) by (nonlinear_arith)
                requires
                    0 <= mag <= 2_000_000_000,
                    REPULSE_SCALE == 1_000_000;
        }
        let weighted = mag * REPULSE_SCALE;
        let q = weighted / d2;
        proof {
            lemma_div_pos_is_pos(weighted as int, d2 as int);
        }
        let m = if q > REPULSE_MAX {
            REPULSE_MAX
        } else {
            q
        };
        if delta < 0 {
            -m
        } else {
            m
        }
    }
}

} // verus!
