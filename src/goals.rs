use crate::actor::{Actor, ActorPosition};
use crate::ledger::ActorResources;
use crate::map::{ScenarioMap, Tile, TileTag};
use crate::story::{final_failure_text, succeeded_state, Goal, Scenario, ScenarioState, StateView};
use vstd::prelude::*;

verus! {

/// `i` is the first tile carrying `tag`.
pub open spec fn is_first_tag(tiles: Seq<Tile>, tag: TileTag, i: int) -> bool {
    0 <= i < tiles.len() && tiles[i].tag == tag && forall|j: int|
        0 <= j < i ==> (#[trigger] tiles[j]).tag != tag
}

/// `j` is the first entry of the player among the actor positions.
pub open spec fn is_first_player(positions: Seq<(Actor, ActorPosition)>, j: int) -> bool {
    0 <= j < positions.len() && positions[j].0 == Actor::Player && forall|k: int|
        0 <= k < j ==> (#[trigger] positions[k]).0 != Actor::Player
}

/// Goal `goal` is met: it exists, and the player stands on the tile tagged
/// for it (the first such tile, and the player's first recorded position).
pub open spec fn goal_reached(
    goal: nat,
    goals: Seq<Goal>,
    tiles: Seq<Tile>,
    positions: Seq<(Actor, ActorPosition)>,
) -> bool {
    goal < goals.len() && exists|i: int, j: int|
        #![trigger is_first_tag(tiles, TileTag::Target(goal as usize), i), is_first_player(positions, j)]
        is_first_tag(tiles, TileTag::Target(goal as usize), i) && is_first_player(positions, j)
            && tiles[i].pos == (positions[j].1.0, positions[j].1.1)
}

/// The active goal `goal` counts as met: it is reached, or the scenario has no
/// goal left at that index (a scenario without goals succeeds at once).
pub open spec fn goal_met(
    goal: nat,
    goals: Seq<Goal>,
    tiles: Seq<Tile>,
    positions: Seq<(Actor, ActorPosition)>,
) -> bool {
    goal >= goals.len() || goal_reached(goal, goals, tiles, positions)
}

/// Index of the first tile carrying `tag`.
fn find_tag(tiles: &Vec<Tile>, tag: TileTag) -> (r: Option<usize>)
    ensures
        r matches Some(i) ==> is_first_tag(tiles@, tag, i as int),
        r is None ==> forall|i: int| 0 <= i < tiles@.len() ==> (#[trigger] tiles@[i]).tag != tag,
{
    let mut i: usize = 0;
    while i < tiles.len()
        invariant
            i <= tiles@.len(),
            forall|j: int| 0 <= j < i ==> (#[trigger] tiles@[j]).tag != tag,
        decreases tiles.len() - i,
    {
        if tiles[i].tag == tag {
            return Some(i);
        }
        i += 1;
    }
    None
}

/// Where the player stands, from its first entry among the actor positions.
pub fn player_position(positions: &Vec<(Actor, ActorPosition)>) -> (r: Option<ActorPosition>)
    ensures
        r matches Some(p) ==> exists|j: int| is_first_player(positions@, j) && positions@[j].1 == p,
        r is None ==> forall|j: int|
            0 <= j < positions@.len() ==> (#[trigger] positions@[j]).0 != Actor::Player,
{
    let mut j: usize = 0;
    while j < positions.len()
        invariant
            j <= positions@.len(),
            forall|k: int| 0 <= k < j ==> (#[trigger] positions@[k]).0 != Actor::Player,
        decreases positions.len() - j,
    {
        if positions[j].0.is_player() {
            assert(is_first_player(positions@, j as int));
            return Some(positions[j].1);
        }
        j += 1;
    }
    None
}

proof fn lemma_first_tag_unique(tiles: Seq<Tile>, tag: TileTag, i: int, k: int)
    requires
        is_first_tag(tiles, tag, i),
        is_first_tag(tiles, tag, k),
    ensures
        i == k,
{
    if i < k {
        assert(tiles[i].tag != tag);
    }
    if k < i {
        assert(tiles[k].tag != tag);
    }
}

proof fn lemma_first_player_unique(positions: Seq<(Actor, ActorPosition)>, j: int, k: int)
    requires
        is_first_player(positions, j),
        is_first_player(positions, k),
    ensures
        j == k,
{
    if j < k {
        assert(positions[j].0 != Actor::Player);
    }
    if k < j {
        assert(positions[k].0 != Actor::Player);
    }
}

/// Whether goal `current_goal_id` of `scenario` is met on `map` with the
/// actors at `positions`.
pub fn check_current_goal(
    current_goal_id: usize,
    scenario: &Scenario,
    map: &ScenarioMap,
    positions: &Vec<(Actor, ActorPosition)>,
) -> (r: bool)
    ensures
        r == goal_reached(current_goal_id as nat, scenario.goals@, map.tiles@, positions@),
{
    if current_goal_id >= scenario.goals.len() {
        return false;
    }
    let tag = TileTag::Target(current_goal_id);
    assert(tag == TileTag::Target((current_goal_id as nat) as usize));
    match find_tag(&map.tiles, tag) {
        None => {
            proof {
                if goal_reached(current_goal_id as nat, scenario.goals@, map.tiles@, positions@) {
                    let (a, b) = choose|a: int, b: int|
                        #![trigger is_first_tag(map.tiles@, tag, a), is_first_player(positions@, b)]
                        is_first_tag(map.tiles@, tag, a) && is_first_player(positions@, b)
                            && map.tiles@[a].pos == (positions@[b].1.0, positions@[b].1.1);
                    assert(map.tiles@[a].tag == tag);
                }
            }
            false
        },
        Some(i) => {
            match player_position(positions) {
                None => {
                    proof {
                        if goal_reached(current_goal_id as nat, scenario.goals@, map.tiles@, positions@) {
                            let (a, b) = choose|a: int, b: int|
                                #![trigger is_first_tag(map.tiles@, tag, a), is_first_player(positions@, b)]
                                is_first_tag(map.tiles@, tag, a) && is_first_player(positions@, b)
                                    && map.tiles@[a].pos == (positions@[b].1.0, positions@[b].1.1);
                            assert(positions@[b].0 == Actor::Player);
                        }
                    }
                    false
                },
                Some(p) => {
                    let pos = map.tiles[i].pos;
                    let r = pos.0 == p.0 && pos.1 == p.1;
                    proof {
                        let j = choose|j: int| is_first_player(positions@, j) && positions@[j].1 == p;
                        if r {
                            assert(is_first_tag(map.tiles@, tag, i as int));
                            assert(is_first_player(positions@, j));
                            assert(map.tiles@[i as int].pos == (positions@[j].1.0, positions@[j].1.1));
                        }
                        if goal_reached(current_goal_id as nat, scenario.goals@, map.tiles@, positions@) {
                            let (a, b) = choose|a: int, b: int|
                                #![trigger is_first_tag(map.tiles@, tag, a), is_first_player(positions@, b)]
                                is_first_tag(map.tiles@, tag, a) && is_first_player(positions@, b)
                                    && map.tiles@[a].pos == (positions@[b].1.0, positions@[b].1.1);
                            lemma_first_tag_unique(map.tiles@, tag, a, i as int);
                            lemma_first_player_unique(positions@, b, j);
                        }
                    }
                    r
                }
            }
        }
    }
}

/// Whether the player has failed: it has resources and its health is zero.
pub fn check_player_failed(resources: &ActorResources) -> (r: bool)
    requires
        resources.keys_unique(),
    ensures
        r == resources.defeated(Actor::Player),
{
    resources.player_failed()
}

/// Checks the active goal of an unfinished scenario; when it is met (see
/// `goal_met`: a scenario with no goal left succeeds with the final success
/// text), the scenario moves on (see `succeeded_state`) and the result is
/// `true`. Otherwise nothing changes.
pub fn check_goal(scenario: &mut Scenario, map: &ScenarioMap, positions: &Vec<(Actor, ActorPosition)>) -> (r: bool)
    ensures
        r == (old(scenario).state@ matches StateView::InProgress(i) && goal_met(
            i,
            old(scenario).goals@,
            map.tiles@,
            positions@,
        )),
        r ==> final(scenario).state@ == succeeded_state(old(scenario).state@, old(scenario).goals@),
        !r ==> final(scenario).state@ == old(scenario).state@,
        final(scenario).goals@ == old(scenario).goals@,
        final(scenario).initial_description@ == old(scenario).initial_description@,
{
    if let ScenarioState::InProgress(i) = scenario.state {
        if i >= scenario.goals.len() || check_current_goal(i, scenario, map, positions) {
            scenario.succeed();
            return true;
        }
    }
    false
}

/// When the player has failed, the scenario ends in failure (see
/// `Scenario::fail`) and the result is `true`; otherwise nothing changes.
pub fn check_failure(scenario: &mut Scenario, resources: &ActorResources) -> (r: bool)
    requires
        resources.keys_unique(),
    ensures
        r == resources.defeated(Actor::Player),
        r ==> final(scenario).state@ == StateView::Failure(final_failure_text(old(scenario).goals@)),
        !r ==> final(scenario).state@ == old(scenario).state@,
        final(scenario).goals@ == old(scenario).goals@,
        final(scenario).initial_description@ == old(scenario).initial_description@,
{
    if check_player_failed(resources) {
        scenario.fail();
        true
    } else {
        false
    }
}

/// A finished scenario stays finished: meeting a goal changes nothing once it
/// has succeeded or failed.
pub proof fn lemma_finished_scenario_is_terminal(s: StateView, goals: Seq<Goal>)
    requires
        !(s is InProgress),
    ensures
        succeeded_state(s, goals) == s,
{
}

/// Meeting the first goal of a scenario moves it to the second goal, or, for
/// a single-goal scenario, ends it in success with that goal's success text.
pub proof fn lemma_first_goal_met(goals: Seq<Goal>)
    requires
        goals.len() >= 1,
    ensures
        goals.len() == 1 ==> succeeded_state(StateView::InProgress(0), goals) == StateView::Success(
            goals[0].success@,
        ),
        goals.len() > 1 ==> succeeded_state(StateView::InProgress(0), goals)
            == StateView::InProgress(1),
{
}

/// A scenario without goals counts its active goal as met at the first check,
/// and then succeeds with the generic success text.
pub proof fn lemma_no_goals_succeed(
    i: nat,
    tiles: Seq<Tile>,
    positions: Seq<(Actor, ActorPosition)>,
)
    ensures
        goal_met(i, Seq::<Goal>::empty(), tiles, positions),
        succeeded_state(StateView::InProgress(i), Seq::<Goal>::empty()) == StateView::Success(
            crate::story::default_success_text(),
        ),
{
}

} // verus!
