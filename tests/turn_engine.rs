use bevy_turborand::RngComponent;
use card_tactics::actor::{Actor, ActorPosition};
use card_tactics::card::{Card, CardAction, Targetable};
use card_tactics::enemy_ai::{choose_enemy_card, select_target};
use card_tactics::engine::{
    actors_at, apply_action_to_targets, apply_move, begin_turn, enemy_think, find_card,
    next_turn_ready, process_card_action, process_card_event, queue_next_turn, resolve_damage,
};
use card_tactics::game_state::{scene_after, scene_for_turn, SceneState};
use card_tactics::goals::{check_current_goal, check_failure, check_goal};
use card_tactics::ledger::{ActorResource, ActorResources};
use card_tactics::map::{ScenarioMap, Tile, TileTag, TileType};
use card_tactics::setup::{initial_positions, setup_scenario};
use card_tactics::story::{Goal, GoalType, Scenario, ScenarioState};
use card_tactics::turn::{AnimateActionsEvents, CardPlayedEvent, CurrentTurnProcess, TargetSelection};
use card_tactics::wait::{StopReason, WaitAction};

fn s(v: &str) -> String {
    v.to_string()
}

fn goal(n: usize) -> Goal {
    Goal {
        description: format!("goal {n}"),
        success: format!("won {n}"),
        failure: format!("lost {n}"),
        goal_type: GoalType::ReachLocation(format!("place {n}")),
    }
}

fn scenario(goals: usize) -> Scenario {
    Scenario {
        initial_description: s("test"),
        state: ScenarioState::InProgress(0),
        goals: (0..goals).map(goal).collect(),
    }
}

fn map_with_target(at: (usize, usize)) -> ScenarioMap {
    let mut tiles = Vec::new();
    for x in 0..10 {
        for y in 0..10 {
            let tag = if (x, y) == at { TileTag::Target(0) } else { TileTag::NoTag };
            tiles.push(Tile { pos: (x, y), tile_type: TileType::Floor, tag });
        }
    }
    ScenarioMap { width: 10, height: 10, tiles }
}

fn ledger(order: Vec<Actor>, health: usize) -> ActorResources {
    let resources = order
        .iter()
        .map(|a| (*a, ActorResource::new(vec![s("step")], health)))
        .collect();
    ActorResources::new(resources, order)
}

fn step_card() -> Card {
    Card::new(s("step"), s("Step"), vec![CardAction::Move(1)], 0)
}

#[test]
fn reaching_the_only_goal_succeeds() {
    let mut sc = scenario(1);
    let map = map_with_target((3, 4));
    let positions = vec![(Actor::Player, ActorPosition(3, 4))];
    assert!(check_current_goal(0, &sc, &map, &positions));
    assert!(check_goal(&mut sc, &map, &positions));
    match &sc.state {
        ScenarioState::Success(t) => assert_eq!(t, "won 0"),
        other => panic!("unexpected {other:?}"),
    }
}

#[test]
fn scenario_without_goals_succeeds_at_the_first_check() {
    let mut sc = scenario(0);
    let map = map_with_target((3, 4));
    let positions = vec![(Actor::Player, ActorPosition(0, 0))];
    let l = ledger(vec![Actor::Player], 3);
    let t = next_turn_ready(&CurrentTurnProcess::Done(Actor::Player), &l, &mut sc, &map, &positions);
    match &sc.state {
        ScenarioState::Success(t) => assert_eq!(t, "Scenario Succeeded"),
        other => panic!("unexpected {other:?}"),
    }
    assert!(matches!(t.process, Some(CurrentTurnProcess::Thinking(Actor::Player))));
}

#[test]
fn setup_starts_everyone_fresh() {
    let ids = vec![s("a"), s("b"), s("c")];
    let setup = setup_scenario(&mut RngComponent::with_seed(5), &ids, vec![s("b")], &scenario(1));
    for (_, r) in setup.resources.resources.iter() {
        assert!(r.used.is_empty());
        assert!(r.discarded.is_empty());
        assert_eq!(r.stun_duration, 0);
        assert_eq!(r.max_health, r.health);
    }
}

#[test]
fn reaching_the_first_of_two_goals_moves_on() {
    let mut sc = scenario(2);
    let map = map_with_target((3, 4));
    let positions = vec![(Actor::Enemy(0), ActorPosition(0, 0)), (Actor::Player, ActorPosition(3, 4))];
    assert!(check_goal(&mut sc, &map, &positions));
    assert!(matches!(sc.state, ScenarioState::InProgress(1)));
}

#[test]
fn standing_elsewhere_meets_no_goal() {
    let mut sc = scenario(1);
    let map = map_with_target((3, 4));
    let positions = vec![(Actor::Player, ActorPosition(3, 5))];
    assert!(!check_goal(&mut sc, &map, &positions));
    assert!(matches!(sc.state, ScenarioState::InProgress(0)));
    assert!(!check_current_goal(4, &sc, &map, &vec![(Actor::Player, ActorPosition(3, 4))]));
}

#[test]
fn finished_scenario_stays_finished() {
    let mut sc = scenario(1);
    let map = map_with_target((3, 4));
    let positions = vec![(Actor::Player, ActorPosition(3, 4))];
    assert!(check_goal(&mut sc, &map, &positions));
    for _ in 0..3 {
        assert!(!check_goal(&mut sc, &map, &positions));
        match &sc.state {
            ScenarioState::Success(t) => assert_eq!(t, "won 0"),
            other => panic!("unexpected {other:?}"),
        }
    }
}

#[test]
fn dead_player_fails_the_scenario() {
    let mut sc = scenario(3);
    sc.state = ScenarioState::InProgress(2);
    let mut l = ledger(vec![Actor::Player], 1);
    assert!(!check_failure(&mut sc, &l));
    l.apply_damage(&Actor::Player, 1);
    assert!(check_failure(&mut sc, &l));
    match &sc.state {
        ScenarioState::Failure(t) => assert_eq!(t, "lost 2"),
        other => panic!("unexpected {other:?}"),
    }
}

#[test]
fn playing_a_known_card_triggers_its_first_action() {
    let mut l = ledger(vec![Actor::Player, Actor::Enemy(0)], 3);
    let cards = vec![step_card()];
    let t = process_card_event(&mut l, &cards, &CardPlayedEvent { actor: Actor::Player, card: s("step") });
    match t.process {
        Some(CurrentTurnProcess::CardActionTriggered(Actor::Player, c, 0)) => assert_eq!(c.id, "step"),
        other => panic!("unexpected {other:?}"),
    }
    assert!(t.events.is_empty());
}

#[test]
fn playing_an_unheld_card_passes_the_turn() {
    let mut l = ledger(vec![Actor::Player, Actor::Enemy(0)], 3);
    let cards = vec![step_card()];
    let t = process_card_event(&mut l, &cards, &CardPlayedEvent { actor: Actor::Player, card: s("leap") });
    assert!(matches!(t.process, Some(CurrentTurnProcess::Thinking(Actor::Enemy(0)))));
    assert!(matches!(t.events[0], AnimateActionsEvents::Wait(200)));
    assert!(matches!(t.events[1], AnimateActionsEvents::Continue(Actor::Enemy(0))));
    let q = queue_next_turn(&l, &Actor::Enemy(0));
    assert!(matches!(q.process, Some(CurrentTurnProcess::Thinking(Actor::Player))));
}

#[test]
fn player_action_asks_for_targets() {
    let l = ledger(vec![Actor::Player], 3);
    let map = map_with_target((9, 9));
    let positions = vec![(Actor::Player, ActorPosition(0, 0))];
    let p = CurrentTurnProcess::CardActionTriggered(Actor::Player, step_card(), 0);
    let t = process_card_action(&p, &l, &map, &positions, &mut RngComponent::with_seed(1));
    assert!(t.process.is_none());
    match &t.events[0] {
        AnimateActionsEvents::SelectTargets(sel) => {
            let mut v = sel.valid_targets.clone();
            v.sort();
            assert_eq!(v, vec![(0, 0), (0, 1), (1, 0), (1, 1)]);
            assert_eq!(sel.num_targets_to_select, 1);
            assert_eq!(sel.action_id, 0);
        },
        other => panic!("unexpected {other:?}"),
    }
}

#[test]
fn enemy_action_picks_a_target() {
    let l = ledger(vec![Actor::Enemy(0)], 3);
    let map = map_with_target((9, 9));
    let positions = vec![(Actor::Enemy(0), ActorPosition(0, 0))];
    let p = CurrentTurnProcess::CardActionTriggered(Actor::Enemy(0), step_card(), 0);
    let t = process_card_action(&p, &l, &map, &positions, &mut RngComponent::with_seed(2));
    match t.process {
        Some(CurrentTurnProcess::CardTargetsSelected(Actor::Enemy(0), _, targets, 0)) => {
            assert_eq!(targets.len(), 1);
            assert!(targets[0].0 <= 1 && targets[0].1 <= 1);
        },
        other => panic!("unexpected {other:?}"),
    }
}

#[test]
fn action_without_position_or_past_the_end() {
    let l = ledger(vec![Actor::Player], 3);
    let map = map_with_target((9, 9));
    let p = CurrentTurnProcess::CardActionTriggered(Actor::Player, step_card(), 0);
    let t = process_card_action(&p, &l, &map, &vec![], &mut RngComponent::with_seed(3));
    match t.process {
        Some(CurrentTurnProcess::CardTargetsSelected(Actor::Player, _, targets, 0)) => assert!(targets.is_empty()),
        other => panic!("unexpected {other:?}"),
    }
    let p = CurrentTurnProcess::CardActionTriggered(Actor::Player, step_card(), 1);
    let t = process_card_action(&p, &l, &map, &vec![], &mut RngComponent::with_seed(3));
    assert!(matches!(t.process, Some(CurrentTurnProcess::Done(Actor::Player))));
}

#[test]
fn effects_are_played_then_the_turn_moves_on() {
    let card = Card::new(
        s("combo"),
        s("Combo"),
        vec![CardAction::Attack { damage: 2, range: 1 }, CardAction::Stun { range: 1, duration: 3 }],
        1,
    );
    let p = CurrentTurnProcess::CardTargetsSelected(Actor::Player, card.clone(), vec![(4, 5)], 0);
    let ev = apply_action_to_targets(&p);
    assert_eq!(ev.len(), 2);
    assert!(matches!(ev[0], AnimateActionsEvents::Attack(Actor::Player, ActorPosition(4, 5), 2)));
    match &ev[1] {
        AnimateActionsEvents::SetTurnProcess(CurrentTurnProcess::CardActionTriggered(Actor::Player, _, 1)) => {},
        other => panic!("unexpected {other:?}"),
    }
    let p = CurrentTurnProcess::CardTargetsSelected(Actor::Player, card, vec![(4, 5)], 1);
    let ev = apply_action_to_targets(&p);
    assert!(matches!(ev[0], AnimateActionsEvents::Stun(Actor::Player, ActorPosition(4, 5), 3)));
    assert!(matches!(ev[1], AnimateActionsEvents::SetTurnProcess(CurrentTurnProcess::Done(Actor::Player))));
    let fizzle = CurrentTurnProcess::CardTargetsSelected(Actor::Player, step_card(), vec![], 0);
    let ev = apply_action_to_targets(&fizzle);
    assert_eq!(ev.len(), 1);
    assert!(apply_action_to_targets(&CurrentTurnProcess::Idle).is_empty());
}

#[test]
fn selection_completes_once_enough_cells_are_chosen() {
    let sel = TargetSelection {
        actor: Actor::Player,
        card: step_card(),
        valid_targets: vec![(1, 1), (2, 2)],
        num_targets_to_select: 1,
        action_id: 0,
    };
    assert!(sel.set_selection(vec![]).is_none());
    match sel.set_selection(vec![(2, 2)]) {
        Some(CurrentTurnProcess::CardTargetsSelected(Actor::Player, _, t, 0)) => assert_eq!(t, vec![(2, 2)]),
        other => panic!("unexpected {other:?}"),
    }
}

#[test]
fn enemy_selection_draws_distinct_targets() {
    let sel = TargetSelection {
        actor: Actor::Enemy(0),
        card: step_card(),
        valid_targets: vec![(1, 1), (2, 2), (3, 3)],
        num_targets_to_select: 2,
        action_id: 0,
    };
    let mut rng = RngComponent::with_seed(9);
    let t = select_target(&mut rng, &sel);
    assert_eq!(t.len(), 2);
    assert_ne!(t[0], t[1]);
    assert!(t.iter().all(|c| sel.valid_targets.contains(c)));
    let few = TargetSelection { num_targets_to_select: 5, ..sel };
    assert_eq!(select_target(&mut rng, &few).len(), 3);
}

#[test]
fn enemy_picks_from_its_hand_or_passes() {
    let mut l = ledger(vec![Actor::Player, Actor::Enemy(0)], 3);
    let mut rng = RngComponent::with_seed(4);
    assert_eq!(choose_enemy_card(&mut rng, &l, &Actor::Enemy(0)), Some(s("step")));
    assert_eq!(choose_enemy_card(&mut rng, &l, &Actor::Enemy(7)), None);
    let cards = vec![step_card()];
    let t = enemy_think(&CurrentTurnProcess::Thinking(Actor::Enemy(0)), &mut l, &cards, &mut rng);
    assert!(matches!(t.process, Some(CurrentTurnProcess::CardActionTriggered(Actor::Enemy(0), _, 0))));
    let mut empty = ActorResources::new(
        vec![(Actor::Enemy(1), ActorResource::new(vec![], 1))],
        vec![Actor::Enemy(1)],
    );
    let t = enemy_think(&CurrentTurnProcess::Thinking(Actor::Enemy(1)), &mut empty, &cards, &mut rng);
    assert!(matches!(t.process, Some(CurrentTurnProcess::Done(Actor::Enemy(1)))));
}

#[test]
fn stunned_player_loses_the_turn() {
    let mut l = ledger(vec![Actor::Player], 3);
    assert!(begin_turn(&mut l, &Actor::Player).process.is_none());
    l.apply_stun(&Actor::Player, 1);
    assert!(matches!(begin_turn(&mut l, &Actor::Player).process, Some(CurrentTurnProcess::Done(Actor::Player))));
    assert!(begin_turn(&mut l, &Actor::Player).process.is_none());
}

#[test]
fn damage_and_moves_land_on_actors() {
    let mut l = ledger(vec![Actor::Player, Actor::Enemy(0), Actor::Enemy(1)], 2);
    let mut positions = vec![
        (Actor::Player, ActorPosition(1, 1)),
        (Actor::Enemy(0), ActorPosition(2, 2)),
        (Actor::Enemy(1), ActorPosition(2, 2)),
    ];
    assert_eq!(actors_at(&positions, ActorPosition(2, 2), None), vec![Actor::Enemy(0), Actor::Enemy(1)]);
    assert_eq!(actors_at(&positions, ActorPosition(2, 2), Some(Actor::Enemy(0))), vec![Actor::Enemy(1)]);
    resolve_damage(&mut l, &Actor::Enemy(0), 2);
    assert_eq!(l.turn_order, vec![Actor::Player, Actor::Enemy(1)]);
    apply_move(&mut positions, &Actor::Player, ActorPosition(5, 6));
    assert_eq!(positions[0], (Actor::Player, ActorPosition(5, 6)));
}

#[test]
fn scenes_follow_turns_and_outcomes() {
    assert_eq!(scene_for_turn(&Actor::Player), SceneState::PlayerTurn);
    assert_eq!(scene_for_turn(&Actor::Enemy(2)), SceneState::EnemyTurn);
    assert_eq!(scene_after(&ScenarioState::InProgress(0)), None);
    assert_eq!(scene_after(&ScenarioState::Success(s("x"))), Some(SceneState::Succeeded));
    assert_eq!(scene_after(&ScenarioState::Failure(s("x"))), Some(SceneState::Failed));
}

#[test]
fn paused_wait_resumes_with_what_remained() {
    let mut w = WaitAction::new(200);
    let mut running = w.on_start();
    assert!(!running.tick(50));
    w.on_stop(running, StopReason::Paused);
    let mut resumed = w.on_start();
    assert_eq!(resumed.0, 150);
    assert!(!resumed.tick(100));
    assert!(resumed.tick(80));
    w.on_stop(resumed, StopReason::Finished);
    assert_eq!(w.on_start().0, 200);
}

#[test]
fn card_texts() {
    let card = Card::new(
        s("combo"),
        s("Combo"),
        vec![CardAction::Move(3), CardAction::Attack { damage: 12, range: 1 }, CardAction::Stun { range: 2, duration: 10 }],
        1,
    );
    assert_eq!(card.title(), "1 - Combo");
    assert_eq!(
        card.description(),
        "Move 3 squares\nAttack for 12 at range 1\nStun an enemy at 2 for 10 turns"
    );
    let blank = Card::new(s("x"), s("Blank"), vec![], 0);
    assert_eq!(blank.description(), "Describing Blank");
    assert_eq!(CardAction::Move(3).target(), Targetable::Path { max_distance: 3 });
    assert_eq!(CardAction::Stun { range: 2, duration: 1 }.target(), Targetable::Creature { max_distance: 2 });
    assert_eq!(Targetable::Creature { max_distance: 2 }.num_targets(), 1);
    assert!(find_card(&vec![card], &s("combo")).is_some());
}

#[test]
fn setup_places_everyone() {
    let ids = vec![s("a"), s("b"), s("c"), s("d")];
    let sc = scenario(1);
    let setup = setup_scenario(&mut RngComponent::with_seed(11), &ids, vec![s("a")], &sc);
    let n = setup.resources.turn_order.len() - 1;
    assert!(n == 3 || n == 4);
    assert_eq!(setup.resources.turn_order[0], Actor::Player);
    for i in 0..n {
        assert_eq!(setup.resources.turn_order[i + 1], Actor::Enemy(i));
        let r = setup.resources.get(&Actor::Enemy(i)).unwrap();
        assert_eq!(r.health, 2);
        assert_eq!(r.hand.len(), 3);
    }
    assert_eq!(setup.resources.get(&Actor::Player).unwrap().health, 5);
    assert_eq!(setup.positions.len(), n + 1);
    assert_eq!(setup.positions, initial_positions(&setup.map));
}

#[test]
fn end_to_end_reach_the_goal() {
    let cards = vec![Card::new(s("dash"), s("Dash"), vec![CardAction::Move(40)], 0)];
    let ids = vec![s("dash")];
    let mut found = false;
    for seed in 0..200u64 {
        let mut rng = RngComponent::with_seed(seed);
        let mut sc = Scenario::parse("Go @ Reach the camp:Made it:Lost:reach-location:camp").unwrap();
        let setup = setup_scenario(&mut rng, &ids, vec![s("dash")], &sc);
        let mut resources = setup.resources;
        let map = setup.map;
        let mut positions = setup.positions;
        let start = map.tiles.iter().find(|t| t.tag == TileTag::Start).unwrap().pos;
        assert!(positions.contains(&(Actor::Player, ActorPosition(start.0, start.1))));
        let target = map.tiles.iter().find(|t| t.tag == TileTag::Target(0)).unwrap().pos;

        let thinking = CurrentTurnProcess::Thinking(Actor::Player);
        assert!(enemy_think(&thinking, &mut resources, &cards, &mut rng).process.is_none());
        let played = process_card_event(
            &mut resources,
            &cards,
            &CardPlayedEvent { actor: Actor::Player, card: s("dash") },
        );
        let triggered = played.process.unwrap();
        let asked = process_card_action(&triggered, &resources, &map, &positions, &mut rng);
        let selection = match &asked.events[0] {
            AnimateActionsEvents::SelectTargets(sel) => sel.clone(),
            other => panic!("unexpected {other:?}"),
        };
        if !selection.valid_targets.contains(&target) {
            continue;
        }
        let chosen = selection.set_selection(vec![target]).unwrap();
        let events = apply_action_to_targets(&chosen);
        match events[0] {
            AnimateActionsEvents::Move(Actor::Player, p) => apply_move(&mut positions, &Actor::Player, p),
            ref other => panic!("unexpected {other:?}"),
        }
        let done = match &events[1] {
            AnimateActionsEvents::SetTurnProcess(p) => p.clone(),
            other => panic!("unexpected {other:?}"),
        };
        assert!(matches!(done, CurrentTurnProcess::Done(Actor::Player)));
        assert!(check_current_goal(0, &sc, &map, &positions));
        let next = next_turn_ready(&done, &resources, &mut sc, &map, &positions);
        match &sc.state {
            ScenarioState::Success(t) => assert_eq!(t, "Made it"),
            other => panic!("unexpected {other:?}"),
        }
        assert!(matches!(next.process, Some(CurrentTurnProcess::Thinking(Actor::Enemy(0)))));
        found = true;
        break;
    }
    assert!(found);
}
