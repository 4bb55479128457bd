use dodgeball::math::Vec2i;
use dodgeball::occupancy_grid::OccupancyGrid;
use dodgeball::player::{AvoidPlayers, Player};
use dodgeball::squad::SquadAi;

fn at(x: i64, y: i64) -> Vec2i {
    Vec2i { x, y }
}

fn bystander(team: u8, x: i64, y: i64) -> Player {
    Player {
        squad: team,
        team,
        knocked_out: false,
        throwing: false,
        held_ball: None,
        position: Vec2i { x, y },
    }
}

#[test]
fn rebuild_files_each_agent_in_exactly_one_cell() {
    let mut grid = OccupancyGrid::new(at(0, 0), 1000, 4, 4);
    let positions: Vec<Vec2i> = vec![at(500, 500), at(3500, 200), at(1500, 2500)];
    grid.update(&positions);
    // each identifier appears once, in the cell containing its position
    let expected_cells: Vec<usize> = vec![0, 3, 9];
    for id in 0..positions.len() {
        let mut appearances = 0;
        for (c, cell) in grid.cells.iter().enumerate() {
            for &listed in cell.iter() {
                if listed == id {
                    appearances += 1;
                    assert_eq!(c, expected_cells[id]);
                }
            }
        }
        assert_eq!(appearances, 1);
    }
}

#[test]
fn rebuild_discards_stale_entries() {
    let mut grid = OccupancyGrid::new(at(0, 0), 1000, 4, 4);
    grid.update(&vec![at(500, 500)]);
    assert_eq!(grid.cells[0], vec![0]);
    // the agent moved; a rebuild must not leave it listed in the old cell
    grid.update(&vec![at(3500, 3500)]);
    assert!(grid.cells[0].is_empty());
    assert_eq!(grid.cells[15], vec![0]);
}

#[test]
fn query_returns_exactly_the_agents_in_radius() {
    let mut grid = OccupancyGrid::new(at(0, 0), 1000, 4, 4);
    let positions: Vec<Vec2i> = vec![
        at(500, 500),    // the query point itself
        at(3500, 200),   // far away
        at(1500, 2500),  // far away
        at(1400, 900),   // 970_000 squared-units away: inside
    ];
    grid.update(&positions);
    let mut near = grid.query_neighbors(&positions, at(500, 500), 1000);
    near.sort();
    assert_eq!(near, vec![0, 3]);
}

#[test]
fn query_at_the_grid_edge_stays_complete() {
    let mut grid = OccupancyGrid::new(at(0, 0), 1000, 4, 4);
    let positions: Vec<Vec2i> = vec![at(50, 50), at(950, 50)];
    grid.update(&positions);
    let mut near = grid.query_neighbors(&positions, at(50, 50), 1000);
    near.sort();
    assert_eq!(near, vec![0, 1]);
}

#[test]
fn avoidance_passes_intent_through_without_neighbors() {
    let intent = at(100, 200);
    let nobody: Vec<Player> = vec![];
    let r = AvoidPlayers::avoid_other_players(at(0, 0), intent, &nobody);
    assert_eq!(r, intent);
}

#[test]
fn avoidance_ignores_neighbors_beyond_radius() {
    let intent = at(100, 200);
    let far = vec![bystander(1, 10_000, 10_000)];
    let r = AvoidPlayers::avoid_other_players(at(0, 0), intent, &far);
    assert_eq!(r, intent);
}

#[test]
fn avoidance_pushes_away_from_a_close_neighbor() {
    let intent = at(100, 200);
    let near = vec![bystander(1, 1000, 0)];
    let r = AvoidPlayers::avoid_other_players(at(0, 0), intent, &near);
    // the neighbor stands toward +x at squared distance 1_000_000:
    // repulsion is 1000 * 1_000_000 / 1_000_000 = 1000, pointing to -x
    assert_eq!(r, at(100 - 1000, 200));
}

#[test]
fn avoidance_ignores_agents_out_of_play() {
    let intent = at(100, 200);
    let mut downed = bystander(1, 1000, 0);
    downed.knocked_out = true;
    let r = AvoidPlayers::avoid_other_players(at(0, 0), intent, &vec![downed]);
    assert_eq!(r, intent);
}

#[test]
fn nearest_live_enemy_is_targeted() {
    let mut downed_enemy = bystander(1, 100, 0);
    downed_enemy.knocked_out = true;
    let players = vec![
        bystander(0, 1, 1),       // an ally
        bystander(1, 5000, 0),    // a far enemy
        bystander(1, 2000, 0),    // the nearest live enemy
        downed_enemy,             // nearer, but out of play
    ];
    let target = SquadAi::find_target_enemy(0, at(0, 0), &players);
    assert_eq!(target, Some(2));
}

#[test]
fn no_live_enemy_means_no_target() {
    let mut downed_enemy = bystander(1, 100, 0);
    downed_enemy.knocked_out = true;
    let players = vec![bystander(0, 1, 1), downed_enemy];
    let target = SquadAi::find_target_enemy(0, at(0, 0), &players);
    assert_eq!(target, None);
}

#[test]
fn formation_request_becomes_per_agent_intents() {
    let mut downed = bystander(0, 400, 400);
    downed.knocked_out = true;
    let players = vec![bystander(0, 200, 300), downed];
    let intents = SquadAi::move_to_requested_positions(at(1000, 1000), &players);
    assert_eq!(intents.len(), 2);
    assert_eq!(intents[0], at(800, 700));
    assert_eq!(intents[1], at(0, 0));
}
