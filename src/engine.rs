use crate::actor::{Actor, ActorPosition};
use crate::card::{target_of, Card, CardAction, CardView, Targetable};
use crate::enemy_ai::{choose_enemy_card, drawn_from, select_target};
use crate::goals::{check_failure, check_goal, goal_met};
use crate::ledger::{damaged, next_in_turn, played, stun_ticked, ActorResources};
use crate::map::{ScenarioMap, Tile};
use crate::story::{final_failure_text, succeeded_state, Scenario, StateView};
use crate::targeting::{
    candidate_cells, is_first_of, lemma_reachable_monotone, position_of, propose_valid_targets,
    reachable, rule_distance, Cell,
};
use crate::turn::{
    event_views, AnimateActionsEvents, CardPlayedEvent, CurrentTurnProcess, EventView,
    ProcessView, TargetSelection,
};
use bevy_turborand::RngComponent;
use vstd::prelude::*;

verus! {

/// Pause before each turn, in milliseconds.
pub const TURN_PAUSE_MS: u64 = 200;

/// The outcome of one step of the turn engine: the new turn process, when it
/// changes, and the events to hand to the presentation layer, in order.
#[derive(Debug, Clone)]
pub struct Transition {
    pub process: Option<CurrentTurnProcess>,
    pub events: Vec<AnimateActionsEvents>,
}

/// The process view of a transition (`None` when it keeps the current one).
pub open spec fn next_process(t: Transition) -> Option<ProcessView> {
    match t.process {
        Some(p) => Some(p@),
        None => None,
    }
}

/// Events that open `a`'s turn.
pub open spec fn turn_start_events(a: Actor) -> Seq<EventView> {
    seq![EventView::Wait(TURN_PAUSE_MS as nat), EventView::Continue(a)]
}

/// `k` is the first card of the catalogue with identifier `id`.
pub open spec fn is_first_card(cards: Seq<Card>, id: Seq<char>, k: int) -> bool {
    0 <= k < cards.len() && cards[k].id@ == id && forall|j: int|
        0 <= j < k ==> (#[trigger] cards[j]).id@ != id
}

/// The catalogue's card with identifier `id`, if any.
pub open spec fn card_with_id(cards: Seq<Card>, id: Seq<char>) -> Option<CardView> {
    if exists|k: int| is_first_card(cards, id, k) {
        Some(cards[choose|k: int| is_first_card(cards, id, k)]@)
    } else {
        None
    }
}

/// Looks a card up by identifier.
pub fn find_card(cards: &Vec<Card>, id: &String) -> (r: Option<Card>)
    ensures
        r is None <==> card_with_id(cards@, id@) is None,
        r matches Some(c) ==> card_with_id(cards@, id@) == Some(c@),
{
    let mut k: usize = 0;
    while k < cards.len()
        invariant
            k <= cards@.len(),
            forall|j: int| 0 <= j < k ==> (#[trigger] cards@[j]).id@ != id@,
        decreases cards.len() - k,
    {
        if cards[k].id == *id {
            proof {
                assert(is_first_card(cards@, id@, k as int));
                let m = choose|m: int| is_first_card(cards@, id@, m);
                if m < k {
                    assert(cards@[m].id@ != id@);
                }
                if k < m {
                    assert(cards@[k as int].id@ != id@);
                }
            }
            return Some(cards[k].duplicate());
        }
        k += 1;
    }
    proof {
        if exists|m: int| is_first_card(cards@, id@, m) {
            let m = choose|m: int| is_first_card(cards@, id@, m);
            assert(cards@[m].id@ == id@);
        }
    }
    None
}

/// Hands the turn to the actor after `actor` in the turn order (the player
/// when `actor` has no place in it), after a pause.
pub fn queue_next_turn(resources: &ActorResources, actor: &Actor) -> (r: Transition)
    ensures
        next_process(r) == Some(ProcessView::Thinking(next_in_turn(resources.turn_order@, *actor))),
        event_views(r.events@) == turn_start_events(next_in_turn(resources.turn_order@, *actor)),
{
    let next = resources.advance_turn(actor);
    let events = vec![AnimateActionsEvents::Wait(TURN_PAUSE_MS), AnimateActionsEvents::Continue(next)];
    proof {
        assert(event_views(events@) =~= turn_start_events(next));
    }
    Transition { process: Some(CurrentTurnProcess::Thinking(next)), events }
}

/// Handles a card played by an actor. When the actor holds the card, it is
/// played (see `ActorResources::play_card`); when the catalogue also knows the
/// card, its first action is triggered. In every other case the turn passes on.
pub fn process_card_event(
    resources: &mut ActorResources,
    cards: &Vec<Card>,
    event: &CardPlayedEvent,
) -> (r: Transition)
    requires
        old(resources).wf(),
    ensures
        final(resources).wf(),
        final(resources).turn_order@ == old(resources).turn_order@,
        ({
            let a = event.actor;
            let held = old(resources).has(a) && old(resources).resource(a).hand.contains(
                event.card@,
            );
            &&& held ==> final(resources).entries() == old(resources).entries().update(
                old(resources).index_of(a),
                (a, played(old(resources).resource(a), event.card@)),
            )
            &&& !held ==> final(resources).resources@ == old(resources).resources@
            &&& (held && card_with_id(cards@, event.card@) is Some) ==> next_process(r) == Some(
                ProcessView::CardActionTriggered(a, card_with_id(cards@, event.card@)->0, 0),
            ) && r.events@.len() == 0
            &&& !(held && card_with_id(cards@, event.card@) is Some) ==> next_process(r) == Some(
                ProcessView::Thinking(next_in_turn(old(resources).turn_order@, a)),
            ) && event_views(r.events@) == turn_start_events(
                next_in_turn(old(resources).turn_order@, a),
            )
        }),
{
    let actor = event.actor;
    if resources.play_card(&actor, &event.card) {
        if let Some(card) = find_card(cards, &event.card) {
            return Transition {
                process: Some(CurrentTurnProcess::CardActionTriggered(actor, card, 0)),
                events: Vec::new(),
            };
        }
    }
    queue_next_turn(resources, &actor)
}

/// `t` lists exactly the cells `actor` may target under `rule`.
pub open spec fn lists_valid_targets(
    t: Seq<Cell>,
    actor: Actor,
    rule: Targetable,
    positions: Seq<(Actor, ActorPosition)>,
    tiles: Seq<Tile>,
) -> bool {
    match position_of(positions, actor) {
        None => t.len() == 0,
        Some(me) => forall|p: Cell|
            t.contains(p) <==> reachable(me, candidate_cells(rule, positions, tiles), rule_distance(rule), p),
    }
}

/// Resolves the targets of the triggered action `action_index` of `card`.
/// Past the last action the turn is done. When the actor has no position
/// there is nothing to target and the action goes on with no target. Otherwise
/// the player is asked to choose among the valid cells (the process stays as
/// it is), while an enemy's targets are drawn at once by the enemy policy.
/// Any other process is left alone.
pub fn process_card_action(
    process: &CurrentTurnProcess,
    resources: &ActorResources,
    map: &ScenarioMap,
    positions: &Vec<(Actor, ActorPosition)>,
    rng: &mut RngComponent,
) -> (r: Transition)
    ensures
        match process@ {
            ProcessView::CardActionTriggered(actor, card, i) => {
                if i < card.actions.len() {
                    let rule = target_of(card.actions[i as int]);
                    match position_of(positions@, actor) {
                        None => next_process(r) == Some(
                            ProcessView::CardTargetsSelected(actor, card, Seq::empty(), i),
                        ) && r.events@.len() == 0,
                        Some(me) => if actor == Actor::Player {
                            &&& next_process(r) is None
                            &&& r.events@.len() == 1
                            &&& r.events@[0]@ matches EventView::SelectTargets(sel) && {
                                &&& sel.actor == actor
                                &&& sel.card == card
                                &&& sel.num_targets_to_select == 1
                                &&& sel.action_id == i
                                &&& lists_valid_targets(sel.valid_targets, actor, rule, positions@, map.tiles@)
                            }
                        } else {
                            &&& r.events@.len() == 0
                            &&& next_process(r) matches Some(ProcessView::CardTargetsSelected(a, c, t, j))
                            &&& a == actor && c == card && j == i
                            &&& t.len() == 1
                            &&& reachable(me, candidate_cells(rule, positions@, map.tiles@), rule_distance(rule), t[0])
                        },
                    }
                } else {
                    next_process(r) == Some(ProcessView::Done(actor)) && r.events@.len() == 0
                }
            },
            _ => next_process(r) is None && r.events@.len() == 0,
        },
{
    match process {
        CurrentTurnProcess::CardActionTriggered(actor, card, action_index) => {
            if *action_index < card.actions.len() {
                let targetable = card.actions[*action_index].target();
                let valid_targets = propose_valid_targets(actor, &targetable, positions, map, resources);
                if valid_targets.len() == 0 {
                    proof {
                        if let Some(me) = position_of(positions@, *actor) {
                            assert(reachable(me, candidate_cells(targetable, positions@, map.tiles@), 0, me));
                            lemma_reachable_monotone(
                                me,
                                candidate_cells(targetable, positions@, map.tiles@),
                                0,
                                rule_distance(targetable),
                                me,
                            );
                            assert(valid_targets@.contains(me));
                        }
                        assert(valid_targets@ =~= Seq::<Cell>::empty());
                    }
                    return Transition {
                        process: Some(
                            CurrentTurnProcess::CardTargetsSelected(
                                *actor,
                                card.duplicate(),
                                valid_targets,
                                *action_index,
                            ),
                        ),
                        events: Vec::new(),
                    };
                }
                let selection = TargetSelection {
                    actor: *actor,
                    card: card.duplicate(),
                    valid_targets,
                    num_targets_to_select: targetable.num_targets(),
                    action_id: *action_index,
                };
                if actor.is_player() {
                    Transition {
                        process: None,
                        events: vec![AnimateActionsEvents::SelectTargets(selection)],
                    }
                } else {
                    let targets = select_target(rng, &selection);
                    proof {
                        let picks = choose|picks: Seq<int>|
                            drawn_from(targets@, selection.valid_targets@, picks);
                        assert(0 <= picks[0] < selection.valid_targets@.len());
                        assert(targets@[0] == selection.valid_targets@[picks[0]]);
                        assert(selection.valid_targets@.contains(targets@[0]));
                    }
                    Transition {
                        process: Some(
                            CurrentTurnProcess::CardTargetsSelected(
                                selection.actor,
                                selection.card,
                                targets,
                                selection.action_id,
                            ),
                        ),
                        events: Vec::new(),
                    }
                }
            } else {
                Transition { process: Some(CurrentTurnProcess::Done(*actor)), events: Vec::new() }
            }
        },
        _ => Transition { process: None, events: Vec::new() },
    }
}

/// The event that plays out `action` of `actor` on the first target, if any.
pub open spec fn effect_events(actor: Actor, action: CardAction, targets: Seq<Cell>) -> Seq<EventView> {
    if targets.len() == 0 {
        Seq::empty()
    } else {
        let p = ActorPosition(targets[0].0, targets[0].1);
        match action {
            CardAction::Move(_) => seq![EventView::Move(actor, p)],
            CardAction::Attack { damage, .. } => seq![EventView::Attack(actor, p, damage as nat)],
            CardAction::Stun { duration, .. } => seq![EventView::Stun(actor, p, duration as nat)],
        }
    }
}

/// What follows action `i` of `card`: the next action, or the end of the turn.
pub open spec fn after_action(actor: Actor, card: CardView, i: nat) -> ProcessView {
    if i + 1 < card.actions.len() {
        ProcessView::CardActionTriggered(actor, card, i + 1)
    } else {
        ProcessView::Done(actor)
    }
}

/// Plays out the selected targets of an action: the action's effect on the
/// first target, then, once that has been played out, the next action or the
/// end of the turn. Any other process gives no event.
pub fn apply_action_to_targets(process: &CurrentTurnProcess) -> (r: Vec<AnimateActionsEvents>)
    ensures
        match process@ {
            ProcessView::CardTargetsSelected(actor, card, targets, i) => event_views(r@) == (if i
                < card.actions.len() {
                effect_events(actor, card.actions[i as int], targets)
            } else {
                Seq::empty()
            }).push(EventView::SetTurnProcess(after_action(actor, card, i))),
            _ => r@.len() == 0,
        },
{
    let mut events: Vec<AnimateActionsEvents> = Vec::new();
    match process {
        CurrentTurnProcess::CardTargetsSelected(actor, card, targets, action_index) => {
            let n = card.actions.len();
            if *action_index < n && targets.len() > 0 {
                let p = ActorPosition(targets[0].0, targets[0].1);
                match card.actions[*action_index] {
                    CardAction::Move(_) => events.push(AnimateActionsEvents::Move(*actor, p)),
                    CardAction::Attack { damage, range: _ } => events.push(
                        AnimateActionsEvents::Attack(*actor, p, damage),
                    ),
                    CardAction::Stun { range: _, duration } => events.push(
                        AnimateActionsEvents::Stun(*actor, p, duration),
                    ),
                }
            }
            let next = if *action_index < n && n - *action_index > 1 {
                CurrentTurnProcess::CardActionTriggered(*actor, card.duplicate(), *action_index + 1)
            } else {
                CurrentTurnProcess::Done(*actor)
            };
            let ghost before = events@;
            events.push(AnimateActionsEvents::SetTurnProcess(next));
            proof {
                assert(event_views(events@) =~= event_views(before).push(events@.last()@));
                assert(event_views(before) =~= if *action_index < n {
                    effect_events(*actor, card@.actions[*action_index as int], targets@)
                } else {
                    Seq::empty()
                });
            }
        },
        _ => {},
    }
    events
}

/// Ends `actor`'s turn: checks the active goal (see `check_goal`), then
/// whether the player has failed (see `check_failure`), then hands the turn
/// on (see `queue_next_turn`). Any other process is left alone.
pub fn next_turn_ready(
    process: &CurrentTurnProcess,
    resources: &ActorResources,
    scenario: &mut Scenario,
    map: &ScenarioMap,
    positions: &Vec<(Actor, ActorPosition)>,
) -> (r: Transition)
    requires
        resources.keys_unique(),
    ensures
        match process@ {
            ProcessView::Done(actor) => {
                let met = old(scenario).state@ matches StateView::InProgress(i)
                    && goal_met(i, old(scenario).goals@, map.tiles@, positions@);
                let progressed = if met {
                    succeeded_state(old(scenario).state@, old(scenario).goals@)
                } else {
                    old(scenario).state@
                };
                &&& resources.defeated(Actor::Player) ==> final(scenario).state@
                    == StateView::Failure(
                    final_failure_text(old(scenario).goals@),
                )
                &&& !resources.defeated(Actor::Player) ==> final(scenario).state@ == progressed
                &&& next_process(r) == Some(ProcessView::Thinking(next_in_turn(resources.turn_order@, actor)))
                &&& event_views(r.events@) == turn_start_events(next_in_turn(resources.turn_order@, actor))
            },
            _ => next_process(r) is None && r.events@.len() == 0 && final(scenario).state@ == old(
                scenario,
            ).state@,
        },
        final(scenario).goals@ == old(scenario).goals@,
        final(scenario).initial_description@ == old(scenario).initial_description@,
{
    match process {
        CurrentTurnProcess::Done(actor) => {
            check_goal(scenario, map, positions);
            check_failure(scenario, resources);
            queue_next_turn(resources, actor)
        },
        _ => Transition { process: None, events: Vec::new() },
    }
}

/// An enemy's thinking: it plays a card drawn from its hand (see
/// `process_card_event`), or, with nothing to play, its turn is done. Any
/// other process is left alone.
pub fn enemy_think(
    process: &CurrentTurnProcess,
    resources: &mut ActorResources,
    cards: &Vec<Card>,
    rng: &mut RngComponent,
) -> (r: Transition)
    requires
        old(resources).wf(),
    ensures
        final(resources).wf(),
        final(resources).turn_order@ == old(resources).turn_order@,
        match process@ {
            ProcessView::Thinking(actor) => if actor != Actor::Player && (!old(resources).has(actor)
                || old(resources).resource(actor).hand.len() == 0) {
                next_process(r) == Some(ProcessView::Done(actor)) && r.events@.len() == 0
                    && final(resources).resources@ == old(resources).resources@
            } else if actor != Actor::Player {
                exists|c: Seq<char>|
                    old(resources).resource(actor).hand.contains(c) && final(resources).entries()
                        == old(resources).entries().update(
                        old(resources).index_of(actor),
                        (actor, played(old(resources).resource(actor), c)),
                    ) && (card_with_id(cards@, c) matches Some(cv) ==> next_process(r) == Some(
                        ProcessView::CardActionTriggered(actor, cv, 0),
                    )) && (card_with_id(cards@, c) is None ==> next_process(r) == Some(
                        ProcessView::Thinking(next_in_turn(old(resources).turn_order@, actor)),
                    ))
            } else {
                next_process(r) is None && r.events@.len() == 0 && final(resources).resources@
                    == old(resources).resources@
            },
            _ => next_process(r) is None && r.events@.len() == 0 && final(resources).resources@
                == old(resources).resources@,
        },
{
    match process {
        CurrentTurnProcess::Thinking(actor) => {
            if actor.is_player() {
                return Transition { process: None, events: Vec::new() };
            }
            match choose_enemy_card(rng, resources, actor) {
                None => Transition { process: Some(CurrentTurnProcess::Done(*actor)), events: Vec::new() },
                Some(card) => {
                    let event = CardPlayedEvent { actor: *actor, card };
                    process_card_event(resources, cards, &event)
                },
            }
        },
        _ => Transition { process: None, events: Vec::new() },
    }
}

/// The start of `actor`'s turn: a stunned actor loses it (one stunned turn
/// passes and the turn is done); otherwise the turn goes ahead and the
/// process is left as it is.
pub fn begin_turn(resources: &mut ActorResources, actor: &Actor) -> (r: Transition)
    requires
        old(resources).wf(),
    ensures
        final(resources).wf(),
        final(resources).turn_order@ == old(resources).turn_order@,
        ({
            let stunned = old(resources).has(*actor) && old(resources).resource(*actor).stun_duration
                > 0;
            &&& stunned ==> next_process(r) == Some(ProcessView::Done(*actor))
                && final(resources).entries() == old(resources).entries().update(
                old(resources).index_of(*actor),
                (*actor, stun_ticked(old(resources).resource(*actor))),
            )
            &&& !stunned ==> next_process(r) is None && final(resources).resources@ == old(
                resources,
            ).resources@
        }),
        r.events@.len() == 0,
{
    if resources.tick_stun(actor) {
        Transition { process: Some(CurrentTurnProcess::Done(*actor)), events: Vec::new() }
    } else {
        Transition { process: None, events: Vec::new() }
    }
}

/// The actors standing on `target`, in order, leaving out `except`.
pub open spec fn actors_on(
    positions: Seq<(Actor, ActorPosition)>,
    target: ActorPosition,
    except: Option<Actor>,
) -> Seq<Actor>
    decreases positions.len(),
{
    if positions.len() == 0 {
        Seq::empty()
    } else {
        let rest = actors_on(positions.drop_last(), target, except);
        let e = positions.last();
        if e.1 == target && except != Some(e.0) {
            rest.push(e.0)
        } else {
            rest
        }
    }
}

/// The actors an effect on `target` reaches: those standing there, less
/// `except` (a stun spares the actor who casts it).
pub fn actors_at(
    positions: &Vec<(Actor, ActorPosition)>,
    target: ActorPosition,
    except: Option<Actor>,
) -> (r: Vec<Actor>)
    ensures
        r@ == actors_on(positions@, target, except),
{
    let mut r: Vec<Actor> = Vec::new();
    let mut i: usize = 0;
    while i < positions.len()
        invariant
            i <= positions@.len(),
            r@ == actors_on(positions@.subrange(0, i as int), target, except),
        decreases positions.len() - i,
    {
        let (a, p) = positions[i];
        proof {
            assert(positions@.subrange(0, i + 1).drop_last() == positions@.subrange(0, i as int));
        }
        let spared = match except {
            Some(x) => x == a,
            None => false,
        };
        if p == target && !spared {
            r.push(a);
        }
        i += 1;
    }
    proof {
        assert(positions@.subrange(0, positions@.len() as int) == positions@);
    }
    r
}

/// A finished move: `actor`'s first recorded position becomes `to`. Nothing
/// changes for an actor without a position.
pub fn apply_move(positions: &mut Vec<(Actor, ActorPosition)>, actor: &Actor, to: ActorPosition)
    ensures
        (exists|j: int| is_first_of(old(positions)@, *actor, j)) ==> exists|j: int|
            is_first_of(old(positions)@, *actor, j) && final(positions)@ == old(
                positions,
            )@.update(j, (*actor, to)),
        !(exists|j: int| is_first_of(old(positions)@, *actor, j))
            ==> final(positions)@ == old(positions)@,
{
    let mut j: usize = 0;
    while j < positions.len()
        invariant
            j <= positions@.len(),
            positions@ == old(positions)@,
            forall|k: int| 0 <= k < j ==> (#[trigger] positions@[k]).0 != *actor,
        decreases positions.len() - j,
    {
        if positions[j].0 == *actor {
            assert(is_first_of(old(positions)@, *actor, j as int));
            positions.set(j, (*actor, to));
            assert(positions@ == old(positions)@.update(j as int, (*actor, to)));
            return ;
        }
        j += 1;
    }
    proof {
        if exists|m: int| is_first_of(positions@, *actor, m) {
            let m = choose|m: int| is_first_of(positions@, *actor, m);
            assert(positions@[m].0 == *actor);
        }
    }
}

/// A finished attack on `actor`: it takes `damage` (see
/// `ActorResources::apply_damage`), then the defeated leave the turn order.
pub fn resolve_damage(resources: &mut ActorResources, actor: &Actor, damage: usize)
    requires
        old(resources).wf(),
    ensures
        final(resources).wf(),
        old(resources).has(*actor) ==> final(resources).entries() == old(resources).entries().update(
            old(resources).index_of(*actor),
            (*actor, damaged(old(resources).resource(*actor), damage as nat)),
        ),
        !old(resources).has(*actor) ==> final(resources).resources@ == old(resources).resources@,
        final(resources).turn_order@ == old(resources).turn_order@.filter(
            |a: Actor| !final(resources).defeated(a),
        ),
{
    resources.apply_damage(actor, damage);
    let ghost mid = *resources;
    resources.prune_defeated();
    proof {
        assert(final(resources).resources@ == mid.resources@);
        assert forall|a: Actor| #![auto] final(resources).defeated(a) == mid.defeated(a) by {}
        assert((|a: Actor| !final(resources).defeated(a)) =~= (|a: Actor| !mid.defeated(a)));
    }
}

} // verus!
