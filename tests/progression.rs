use card_tactics::actor::Actor;
use card_tactics::card::{Card, CardAction};
use card_tactics::ledger::{ActorResource, ActorResources};
use card_tactics::progression::{
    complete_intermission, failure_rewards, intermission_offer, learn_cards, starting_cards,
};
use card_tactics::turn::{AnimateActionsEvents, CurrentTurnProcess};

fn card(id: &str, tier: usize) -> Card {
    Card::new(id.to_string(), id.to_uppercase(), vec![CardAction::Move(1)], tier)
}

fn ids(v: &[Card]) -> Vec<String> {
    v.iter().map(|c| c.id.clone()).collect()
}

#[test]
fn tier_zero_cards_start_available() {
    let all = vec![card("a", 0), card("b", 1), card("c", 0), card("d", 2)];
    assert_eq!(ids(&starting_cards(&all)), vec!["a", "c"]);
}

#[test]
fn intermission_offers_cards_the_player_lacks() {
    let all = vec![card("a", 0), card("b", 1), card("c", 0), card("d", 2)];
    let mut res = ActorResource::new(vec!["a".to_string()], 5);
    res.used = vec!["d".to_string()];
    let ledger = ActorResources::new(vec![(Actor::Player, res)], vec![Actor::Player]);
    assert_eq!(ids(&intermission_offer(&all, &ledger)), vec!["b", "c"]);
    let empty = ActorResources::default();
    assert_eq!(ids(&intermission_offer(&all, &empty)).len(), 4);
}

#[test]
fn failure_offers_lowest_tier_of_unknown_cards() {
    let all = vec![card("a", 0), card("b", 2), card("c", 1), card("d", 1), card("e", 3)];
    let available = vec![card("a", 0)];
    assert_eq!(ids(&failure_rewards(&all, &available)), vec!["c", "d"]);
    assert!(failure_rewards(&all, &all).is_empty());
}

#[test]
fn intermission_refills_the_hand() {
    let mut res = ActorResource::new(vec!["a".to_string()], 5);
    res.used = vec!["b".to_string()];
    let mut ledger = ActorResources::new(vec![(Actor::Player, res)], vec![Actor::Player]);
    let t = complete_intermission(&mut ledger, vec!["c".to_string()]);
    let r = ledger.get(&Actor::Player).unwrap();
    assert_eq!(r.hand, vec!["a", "b", "c"]);
    assert!(r.used.is_empty());
    assert!(matches!(t.process, Some(CurrentTurnProcess::Thinking(Actor::Player))));
    assert!(matches!(t.events[1], AnimateActionsEvents::Continue(Actor::Player)));
}

#[test]
fn learned_cards_become_available() {
    let all = vec![card("a", 0), card("b", 1), card("c", 2)];
    let mut available = vec![card("a", 0)];
    learn_cards(&mut available, &all, &vec!["c".to_string(), "zz".to_string(), "a".to_string()]);
    assert_eq!(ids(&available), vec!["a", "c"]);
}
