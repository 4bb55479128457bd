//! Per-squad aggregate state and targeting.

use crate::math::{dist2, distance_squared, Vec2i};
use crate::player::Player;
use vstd::prelude::*;

verus! {

/// Live aggregate counters of one squad, maintained by the collision router.
#[derive(Clone, Copy, Debug, PartialEq, Eq, Structural)]
pub struct SquadState {
    /// Agents of the squad still in play.
    pub num_players: u32,
    /// Agents of the squad currently carrying a ball.
    pub num_holding_balls: u32,
}

/// Integer percentage of live players carrying a ball, truncated.
pub open spec fn ball_percent_spec(holding: u32, players: u32) -> int {
    if players == 0 {
        0
    } else {
        holding * 100 / (players as int)
    }
}

impl SquadState {
    /// A squad never counts more carriers than live players.
    pub open spec fn wf(self) -> bool {
        self.num_holding_balls <= self.num_players
    }

    /// Percentage of the squad's live players holding a ball, truncated
    /// toward zero; read by the display collaborator.
    pub fn ball_percent(&self) -> (r: u32)
        requires
            self.wf(),
        ensures
            r == ball_percent_spec(self.num_holding_balls, self.num_players),
            r <= 100,
    {
        if self.num_players == 0 {
            0
        } else {
            proof {
                assert(self.num_holding_balls * 100 <= self.num_players * 100) by (nonlinear_arith)
                    requires
                        self.num_holding_balls <= self.num_players;
                assert(self.num_players * 100 / (self.num_players as int) == 100) by (nonlinear_arith)
                    requires
                        self.num_players > 0;
                assert(self.num_holding_balls * 100 / (self.num_players as int) <= self.num_players
                    * 100 / (self.num_players as int)) by (nonlinear_arith)
                    requires
                        self.num_holding_balls * 100 <= self.num_players * 100,
                        self.num_players > 0;
            }
            (self.num_holding_balls as u64 * 100 / self.num_players as u64) as u32
        }
    }
}

/// The aggregate table of every squad, in squad order.
pub struct SquadStates {
    pub squads: Vec<SquadState>,
}

impl SquadStates {
    /// A fresh table: each squad starts with its roster size and no balls.
    pub fn new(squad_sizes: &Vec<u32>) -> (r: SquadStates)
        ensures
            r.squads@.len() == squad_sizes@.len(),
            forall|s: int|
                0 <= s < squad_sizes@.len() ==> (#[trigger] r.squads@[s]).num_players
                    == squad_sizes@[s] && r.squads@[s].num_holding_balls == 0,
    {
        let mut squads: Vec<SquadState> = Vec::new();
        let mut i: usize = 0;
        while i < squad_sizes.len()
            invariant
                i <= squad_sizes@.len(),
                squads@.len() == i,
                forall|s: int|
                    0 <= s < i ==> (#[trigger] squads@[s]).num_players == squad_sizes@[s]
                        && squads@[s].num_holding_balls == 0,
            decreases squad_sizes@.len() - i,
        {
            squads.push(SquadState { num_players: squad_sizes[i], num_holding_balls: 0 });
            i = i + 1;
        }
        SquadStates { squads }
    }
}

/// A live agent of the opposing team: a valid target.
pub open spec fn is_live_enemy(p: Player, my_team: u8) -> bool {
    !p.knocked_out && p.team != my_team
}

/// Squad-level steering state; its systems resolve targets and formation
/// movement for the squad's agents.
pub struct SquadAi;

impl SquadAi {
    /// The nearest live opposing agent, by squared floor distance; `None`
    /// exactly when no live enemy remains.
    pub fn find_target_enemy(my_team: u8, my_pos: Vec2i, players: &Vec<Player>) -> (r: Option<
        usize,
    >)
        requires
            my_pos.ok(),
            forall|j: int| 0 <= j < players@.len() ==> (#[trigger] players@[j]).position.ok(),
        ensures
            match r {
                Some(i) => {
                    &&& 0 <= i < players@.len()
                    &&& is_live_enemy(players@[i as int], my_team)
                    &&& forall|j: int|
                        0 <= j < players@.len() && is_live_enemy(#[trigger] players@[j], my_team)
                            ==> dist2(my_pos, players@[i as int].position) <= dist2(
                            my_pos,
                            players@[j].position,
                        )
                },
                None => forall|j: int|
                    0 <= j < players@.len() ==> !is_live_enemy(#[trigger] players@[j], my_team),
            },
    {
        let mut best: Option<usize> = None;
        let mut best_d2: i64 = 0;
        let mut j: usize = 0;
        while j < players.len()
            invariant
                my_pos.ok(),
                forall|k: int| 0 <= k < players@.len() ==> (#[trigger] players@[k]).position.ok(),
                j <= players@.len(),
                match best {
                    Some(i) => {
                        &&& 0 <= i < j
                        &&& is_live_enemy(players@[i as int], my_team)
                        &&& best_d2 == dist2(my_pos, players@[i as int].position)
                        &&& forall|k: int|
                            0 <= k < j && is_live_enemy(#[trigger] players@[k], my_team) ==> best_d2
                                <= dist2(my_pos, players@[k].position)
                    },
                    None => forall|k: int|
                        0 <= k < j ==> !is_live_enemy(#[trigger] players@[k], my_team),
                },
            decreases players@.len() - j,
        {
            let p = players[j];
            if !p.knocked_out && p.team != my_team {
                let d2 = distance_squared(my_pos, p.position);
                match best {
                    Some(_) => {
                        if d2 < best_d2 {
                            best = Some(j);
                            best_d2 = d2;
                        }
                    },
                    None => {
                        best = Some(j);
                        best_d2 = d2;
                    },
                }
            }
            j = j + 1;
        }
        best
    }

    /// Resolves a squad-level requested formation point into one movement
    /// intent per agent: the direction from the agent to the point, and no
    /// movement for agents out of play.
    pub fn move_to_requested_positions(requested: Vec2i, players: &Vec<Player>) -> (v: Vec<Vec2i>)
        requires
            requested.ok(),
            forall|j: int| 0 <= j < players@.len() ==> (#[trigger] players@[j]).position.ok(),
        ensures
            v@.len() == players@.len(),
            forall|j: int|
                0 <= j < players@.len() ==> #[trigger] v@[j] == move_intent(
                    requested,
                    players@[j],
                ),
    {
        let mut v: Vec<Vec2i> = Vec::new();
        let mut j: usize = 0;
        while j < players.len()
            invariant
                requested.ok(),
                forall|k: int| 0 <= k < players@.len() ==> (#[trigger] players@[k]).position.ok(),
                j <= players@.len(),
                v@.len() == j,
                forall|k: int|
                    0 <= k < j ==> #[trigger] v@[k] == move_intent(requested, players@[k]),
            decreases players@.len() - j,
        {
            let p = players[j];
            if p.knocked_out {
                v.push(Vec2i { x: 0, y: 0 });
            } else {
                v.push(Vec2i { x: requested.x - p.position.x, y: requested.y - p.position.y });
            }
            j = j + 1;
        }
        v
    }
}

/// The movement intent one agent receives from its squad's formation request.
pub open spec fn move_intent(requested: Vec2i, p: Player) -> Vec2i {
    if p.knocked_out {
        Vec2i { x: 0, y: 0 }
    } else {
        Vec2i { x: (requested.x - p.position.x) as i64, y: (requested.y - p.position.y) as i64 }
    }
}

} // verus!
