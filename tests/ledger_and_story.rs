use card_tactics::actor::Actor;
use card_tactics::ledger::{ActorResource, ActorResources};
use card_tactics::story::{Goal, GoalType, Scenario, ScenarioState, Story, StoryPhase};
use card_tactics::text::{split_ranges, trim_range};

fn s(v: &str) -> String {
    v.to_string()
}

fn ledger(order: Vec<Actor>) -> ActorResources {
    let resources = order
        .iter()
        .map(|a| (*a, ActorResource::new(vec![s("a"), s("b")], 2)))
        .collect();
    ActorResources::new(resources, order)
}

#[test]
fn turns_wrap_to_the_player() {
    let l = ledger(vec![Actor::Player, Actor::Enemy(0), Actor::Enemy(1)]);
    assert_eq!(l.advance_turn(&Actor::Player), Actor::Enemy(0));
    assert_eq!(l.advance_turn(&Actor::Enemy(0)), Actor::Enemy(1));
    assert_eq!(l.advance_turn(&Actor::Enemy(1)), Actor::Player);
}

#[test]
fn absent_actor_hands_turn_to_player() {
    let l = ledger(vec![Actor::Enemy(0), Actor::Enemy(1)]);
    assert_eq!(l.advance_turn(&Actor::Enemy(5)), Actor::Player);
}

#[test]
fn hand_recycles_in_order() {
    let mut l = ledger(vec![Actor::Player]);
    assert!(l.play_card(&Actor::Player, &s("a")));
    let r = l.get(&Actor::Player).unwrap();
    assert_eq!(r.hand, vec![s("b")]);
    assert_eq!(r.used, vec![s("a")]);
    assert!(l.play_card(&Actor::Player, &s("b")));
    let r = l.get(&Actor::Player).unwrap();
    assert_eq!(r.hand, vec![s("a"), s("b")]);
    assert!(r.used.is_empty());
}

#[test]
fn card_not_in_hand_changes_nothing() {
    let mut l = ledger(vec![Actor::Player]);
    assert!(!l.play_card(&Actor::Player, &s("z")));
    assert!(!l.play_card(&Actor::Enemy(3), &s("a")));
    let r = l.get(&Actor::Player).unwrap();
    assert_eq!(r.hand, vec![s("a"), s("b")]);
    assert!(r.used.is_empty());
}

#[test]
fn duplicate_cards_all_leave_the_hand() {
    let mut l = ActorResources::new(
        vec![(Actor::Player, ActorResource::new(vec![s("a"), s("b"), s("a")], 3))],
        vec![Actor::Player],
    );
    assert!(l.play_card(&Actor::Player, &s("a")));
    let r = l.get(&Actor::Player).unwrap();
    assert_eq!(r.hand, vec![s("b")]);
    assert_eq!(r.used, vec![s("a")]);
}

#[test]
fn defeated_actors_leave_the_turn_order() {
    let mut l = ledger(vec![Actor::Player, Actor::Enemy(0), Actor::Enemy(1)]);
    l.apply_damage(&Actor::Enemy(0), 5);
    assert_eq!(l.get(&Actor::Enemy(0)).unwrap().health, 0);
    l.apply_damage(&Actor::Enemy(1), 1);
    assert_eq!(l.get(&Actor::Enemy(1)).unwrap().health, 1);
    l.prune_defeated();
    assert_eq!(l.turn_order, vec![Actor::Player, Actor::Enemy(1)]);
    assert!(l.get(&Actor::Enemy(0)).is_some());
}

#[test]
fn player_failure_is_zero_health() {
    let mut l = ledger(vec![Actor::Player, Actor::Enemy(0)]);
    assert!(!l.player_failed());
    l.apply_damage(&Actor::Player, 2);
    assert!(l.player_failed());
}

#[test]
fn stun_costs_turns() {
    let mut l = ledger(vec![Actor::Player]);
    l.apply_stun(&Actor::Player, 2);
    assert!(l.tick_stun(&Actor::Player));
    assert!(l.tick_stun(&Actor::Player));
    assert!(!l.tick_stun(&Actor::Player));
}

#[test]
fn trim_and_split_ranges() {
    let chars: Vec<char> = "  a:b \t".chars().collect();
    assert_eq!(trim_range(&chars, 0, chars.len()), (2, 5));
    let parts = split_ranges(&chars, 2, 5, ':');
    assert_eq!(parts, vec![(2, 3), (4, 5)]);
    let empty: Vec<char> = Vec::new();
    assert_eq!(split_ranges(&empty, 0, 0, '|'), vec![(0, 0)]);
}

#[test]
fn scenario_text_parses() {
    let text = " Into the woods @ Find the hut:You found it:You got lost:reach-location: hut | Cross the river:Made it:Swept away:reach-location:ford ";
    let sc = Scenario::parse(text).unwrap();
    assert_eq!(sc.initial_description, "Into the woods");
    assert!(matches!(sc.state, ScenarioState::InProgress(0)));
    assert_eq!(sc.goals.len(), 2);
    assert_eq!(sc.goals[0].description, "Find the hut");
    assert_eq!(sc.goals[0].success, "You found it");
    assert_eq!(sc.goals[0].failure, "You got lost");
    match &sc.goals[0].goal_type {
        GoalType::ReachLocation(t) => assert_eq!(t, "hut"),
    }
    assert_eq!(sc.goals[1].description, "Cross the river");
    match &sc.goals[1].goal_type {
        GoalType::ReachLocation(t) => assert_eq!(t, "ford"),
    }
}

#[test]
fn scenario_needs_exactly_one_at_sign() {
    assert!(Scenario::parse("no goals here").is_none());
    assert!(Scenario::parse("a @ b @ c").is_none());
    let sc = Scenario::parse("only text @").unwrap();
    assert!(sc.goals.is_empty());
}

#[test]
fn unknown_or_short_goals_are_dropped() {
    let goals = Goal::parse("a:b:c:fly-away:x|d:e:f:reach-location|g:h:i:reach-location:j");
    assert_eq!(goals.len(), 1);
    assert_eq!(goals[0].description, "g");
}

fn two_goal_scenario(state: ScenarioState) -> Scenario {
    Scenario {
        initial_description: s("x"),
        state,
        goals: vec![
            Goal { description: s("g0"), success: s("s0"), failure: s("f0"), goal_type: GoalType::default() },
            Goal { description: s("g1"), success: s("s1"), failure: s("f1"), goal_type: GoalType::default() },
        ],
    }
}

#[test]
fn succeed_walks_through_goals() {
    let mut sc = two_goal_scenario(ScenarioState::InProgress(0));
    assert!(matches!(sc.succeed(), ScenarioState::InProgress(1)));
    match sc.succeed() {
        ScenarioState::Success(t) => assert_eq!(t, "s1"),
        other => panic!("unexpected {other:?}"),
    }
    match sc.succeed() {
        ScenarioState::Success(t) => assert_eq!(t, "s1"),
        other => panic!("unexpected {other:?}"),
    }
}

#[test]
fn succeed_and_fail_without_goals() {
    let mut sc = Scenario { initial_description: s("x"), state: ScenarioState::InProgress(0), goals: vec![] };
    match sc.succeed() {
        ScenarioState::Success(t) => assert_eq!(t, "Scenario Succeeded"),
        other => panic!("unexpected {other:?}"),
    }
    match sc.fail() {
        ScenarioState::Failure(t) => assert_eq!(t, "Scenario Failed"),
        other => panic!("unexpected {other:?}"),
    }
}

#[test]
fn fail_uses_last_goal_text() {
    let mut sc = two_goal_scenario(ScenarioState::InProgress(0));
    match sc.fail() {
        ScenarioState::Failure(t) => assert_eq!(t, "f1"),
        other => panic!("unexpected {other:?}"),
    }
}

#[test]
fn story_phases_advance_and_name_keys() {
    let mut story = Story::new();
    assert_eq!(story.generate_next_scenario(None), "intro");
    assert_eq!(story.phase, StoryPhase::Start);
    let sc = two_goal_scenario(ScenarioState::InProgress(0));
    assert_eq!(story.generate_next_scenario(Some(sc)), "confrontation");
    assert_eq!(story.scenarios.len(), 1);
    assert_eq!(story.generate_next_scenario(None), "complete");
    assert_eq!(story.generate_next_scenario(None), "complete");
    assert_eq!(story.phase, StoryPhase::Complete);
}
