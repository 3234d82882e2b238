use bevy_turborand::RngComponent;
use card_tactics::actor::{Actor, ActorPosition};
use card_tactics::card::Targetable;
use card_tactics::ledger::ActorResources;
use card_tactics::map::{tile_type_for_roll, ScenarioMap, Tile, TileTag, TileType};
use card_tactics::story::{Goal, GoalType, Scenario, ScenarioState};
use card_tactics::targeting::{positions_within_n, propose_valid_targets};

fn goal(n: usize) -> Goal {
    Goal {
        description: format!("goal {n}"),
        success: format!("won {n}"),
        failure: format!("lost {n}"),
        goal_type: GoalType::ReachLocation(format!("place {n}")),
    }
}

fn scenario_with_goals(n: usize) -> Scenario {
    Scenario {
        initial_description: "test".to_string(),
        state: ScenarioState::InProgress(0),
        goals: (0..n).map(goal).collect(),
    }
}

fn floor_map(width: usize, height: usize) -> ScenarioMap {
    let mut tiles = Vec::new();
    for x in 0..width {
        for y in 0..height {
            tiles.push(Tile { pos: (x, y), tile_type: TileType::Floor, tag: TileTag::NoTag });
        }
    }
    ScenarioMap { width, height, tiles }
}

#[test]
fn generated_maps_follow_placement_rules() {
    for seed in 0..40u64 {
        let mut rng = RngComponent::with_seed(seed);
        let scenario = scenario_with_goals(2);
        let enemies = vec![Actor::Enemy(0), Actor::Enemy(1), Actor::Enemy(2)];
        let map = ScenarioMap::generate(&mut rng, &scenario, &enemies);
        assert!((10..=20).contains(&map.width));
        assert!((10..=20).contains(&map.height));
        assert_eq!(map.tiles.len(), map.width * map.height);
        let starts = map.tiles.iter().filter(|t| t.tag == TileTag::Start).count();
        let targets = map.tiles.iter().filter(|t| matches!(t.tag, TileTag::Target(_))).count();
        let enemy_tiles = map.tiles.iter().filter(|t| matches!(t.tag, TileTag::Enemy(_))).count();
        assert_eq!(starts, 1);
        assert_eq!(targets, 2);
        assert_eq!(enemy_tiles, 3);
        for g in 0..2 {
            assert_eq!(map.tiles.iter().filter(|t| t.tag == TileTag::Target(g)).count(), 1);
        }
        for e in &enemies {
            assert_eq!(map.tiles.iter().filter(|t| t.tag == TileTag::Enemy(*e)).count(), 1);
        }
        for (i, t) in map.tiles.iter().enumerate() {
            assert_eq!(t.pos.0 * map.height + t.pos.1, i);
            if t.tag != TileTag::NoTag {
                assert_eq!(t.tile_type, TileType::Floor);
            }
        }
    }
}

#[test]
fn same_seed_gives_same_map() {
    let scenario = scenario_with_goals(1);
    let enemies = vec![Actor::Enemy(0)];
    let a = ScenarioMap::generate(&mut RngComponent::with_seed(7), &scenario, &enemies);
    let b = ScenarioMap::generate(&mut RngComponent::with_seed(7), &scenario, &enemies);
    assert_eq!(a.width, b.width);
    assert_eq!(a.height, b.height);
    assert_eq!(a.tiles, b.tiles);
}

#[test]
fn map_without_goals_or_enemies_has_only_a_start() {
    let scenario = scenario_with_goals(0);
    let map = ScenarioMap::generate(&mut RngComponent::with_seed(3), &scenario, &vec![]);
    assert_eq!(map.tiles.iter().filter(|t| t.tag != TileTag::NoTag).count(), 1);
}

#[test]
fn roll_thresholds_pick_ground() {
    assert_eq!(tile_type_for_roll(0), TileType::Floor);
    assert_eq!(tile_type_for_roll(69), TileType::Floor);
    assert_eq!(tile_type_for_roll(70), TileType::Obstacle);
    assert_eq!(tile_type_for_roll(79), TileType::Obstacle);
    assert_eq!(tile_type_for_roll(80), TileType::Wall);
    assert_eq!(tile_type_for_roll(89), TileType::Wall);
    assert_eq!(tile_type_for_roll(90), TileType::Empty);
    assert_eq!(tile_type_for_roll(99), TileType::Empty);
}

fn sorted(mut v: Vec<(usize, usize)>) -> Vec<(usize, usize)> {
    v.sort();
    v.dedup();
    v
}

#[test]
fn one_step_reaches_the_neighbourhood() {
    let cells: Vec<(usize, usize)> = floor_map(10, 10).tiles.iter().map(|t| t.pos).collect();
    let r = positions_within_n(&(5, 5), &cells, 1);
    assert_eq!(r[0], (5, 5));
    assert_eq!(r.len(), 9);
    let mut expected = Vec::new();
    for x in 4..=6 {
        for y in 4..=6 {
            expected.push((x, y));
        }
    }
    assert_eq!(sorted(r), expected);
}

#[test]
fn two_steps_reach_further() {
    let cells: Vec<(usize, usize)> = floor_map(10, 10).tiles.iter().map(|t| t.pos).collect();
    let one = sorted(positions_within_n(&(5, 5), &cells, 1));
    let raw = positions_within_n(&(5, 5), &cells, 2);
    assert_eq!(raw.len(), 25);
    let two = sorted(raw);
    assert!(two.len() > one.len());
    assert!(one.iter().all(|c| two.contains(c)));
    assert_eq!(two.len(), 25);
}

#[test]
fn zero_steps_reach_only_the_start() {
    let cells = vec![(1, 1), (2, 2)];
    assert_eq!(positions_within_n(&(1, 1), &cells, 0), vec![(1, 1)]);
    assert_eq!(positions_within_n(&(2, 2), &vec![(2, 3), (5, 5)], 0), vec![(2, 2)]);
}

#[test]
fn reach_stops_at_gaps() {
    // (0,0) -> (1,1) -> (2,2); (4,4) is cut off.
    let cells = vec![(1, 1), (2, 2), (4, 4)];
    let r = sorted(positions_within_n(&(0, 0), &cells, 5));
    assert_eq!(r, vec![(0, 0), (1, 1), (2, 2)]);
}

#[test]
fn corner_start_has_three_neighbours() {
    let cells: Vec<(usize, usize)> = floor_map(10, 10).tiles.iter().map(|t| t.pos).collect();
    let r = sorted(positions_within_n(&(0, 0), &cells, 1));
    assert_eq!(r, vec![(0, 0), (0, 1), (1, 0), (1, 1)]);
}

#[test]
fn path_targets_skip_walls() {
    let mut map = floor_map(10, 10);
    for t in map.tiles.iter_mut() {
        if t.pos.0 == 6 {
            t.tile_type = TileType::Wall;
        }
    }
    let positions = vec![(Actor::Player, ActorPosition(5, 5))];
    let ledger = ActorResources::default();
    let r = sorted(propose_valid_targets(
        &Actor::Player,
        &Targetable::Path { max_distance: 3 },
        &positions,
        &map,
        &ledger,
    ));
    assert!(r.iter().all(|c| c.0 <= 5));
    assert!(r.contains(&(2, 5)));
    assert!(!r.contains(&(7, 5)));
}

#[test]
fn creature_targets_are_occupied_cells() {
    let map = floor_map(10, 10);
    let positions = vec![
        (Actor::Player, ActorPosition(5, 5)),
        (Actor::Enemy(0), ActorPosition(6, 6)),
        (Actor::Enemy(1), ActorPosition(9, 9)),
    ];
    let ledger = ActorResources::default();
    let r = sorted(propose_valid_targets(
        &Actor::Player,
        &Targetable::Creature { max_distance: 1 },
        &positions,
        &map,
        &ledger,
    ));
    assert_eq!(r, vec![(5, 5), (6, 6)]);
}

#[test]
fn no_position_no_targets() {
    let map = floor_map(10, 10);
    let positions = vec![(Actor::Enemy(0), ActorPosition(1, 1))];
    let ledger = ActorResources::default();
    let r = propose_valid_targets(
        &Actor::Player,
        &Targetable::Path { max_distance: 2 },
        &positions,
        &map,
        &ledger,
    );
    assert!(r.is_empty());
}
