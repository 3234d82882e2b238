use crate::actor::{Actor, ActorPosition};
use crate::enemy_ai::min_count;
use crate::ledger::{clone_strings, fresh_resources, strs, ActorResource, ActorResources};
use crate::map::{well_placed, ScenarioMap, Tile, TileTag};
use crate::rng::draw_below;
use crate::story::Scenario;
use bevy_turborand::RngComponent;
use vstd::prelude::*;

verus! {

/// Health an enemy starts a scenario with.
pub const ENEMY_HEALTH: usize = 2;

/// Health the player starts a scenario with.
pub const PLAYER_HEALTH: usize = 5;

/// Size of the enemies' shared hand.
pub const ENEMY_HAND_SIZE: usize = 3;

/// Where the actors stand on a fresh map: the player on the start tile and
/// each enemy on its own tile, in tile order.
pub open spec fn tag_positions(tiles: Seq<Tile>) -> Seq<(Actor, ActorPosition)>
    decreases tiles.len(),
{
    if tiles.len() == 0 {
        Seq::empty()
    } else {
        let rest = tag_positions(tiles.drop_last());
        let t = tiles.last();
        let p = ActorPosition(t.pos.0, t.pos.1);
        match t.tag {
            TileTag::Start => rest.push((Actor::Player, p)),
            TileTag::Enemy(a) => rest.push((a, p)),
            _ => rest,
        }
    }
}

/// The actors' starting positions on `map`.
pub fn initial_positions(map: &ScenarioMap) -> (r: Vec<(Actor, ActorPosition)>)
    ensures
        r@ == tag_positions(map.tiles@),
{
    let mut r: Vec<(Actor, ActorPosition)> = Vec::new();
    let mut i: usize = 0;
    while i < map.tiles.len()
        invariant
            i <= map.tiles@.len(),
            r@ == tag_positions(map.tiles@.subrange(0, i as int)),
        decreases map.tiles.len() - i,
    {
        let t = map.tiles[i];
        proof {
            assert(map.tiles@.subrange(0, i + 1).drop_last() == map.tiles@.subrange(0, i as int));
        }
        let p = ActorPosition(t.pos.0, t.pos.1);
        match t.tag {
            TileTag::Start => r.push((Actor::Player, p)),
            TileTag::Enemy(a) => r.push((a, p)),
            _ => {},
        }
        i += 1;
    }
    proof {
        assert(map.tiles@.subrange(0, map.tiles@.len() as int) == map.tiles@);
    }
    r
}

/// Everything a scenario starts from.
#[derive(Debug, Clone)]
pub struct ScenarioSetup {
    pub resources: ActorResources,
    pub map: ScenarioMap,
    pub positions: Vec<(Actor, ActorPosition)>,
}

/// The enemies `Enemy(0)` to `Enemy(n - 1)`.
pub open spec fn enemy_roster(n: nat) -> Seq<Actor> {
    Seq::new(n, |i: int| Actor::Enemy(i as usize))
}

/// Draws up to `ENEMY_HAND_SIZE` distinct cards of the catalogue.
fn draw_hand(rng: &mut RngComponent, card_ids: &Vec<String>) -> (r: Vec<String>)
    ensures
        r@.len() == min_count(ENEMY_HAND_SIZE as nat, card_ids@.len()),
        exists|picks: Seq<int>| drawn_ids(r@, card_ids@, picks),
{
    let n = card_ids.len();
    let want = if ENEMY_HAND_SIZE <= n {
        ENEMY_HAND_SIZE
    } else {
        n
    };
    let mut pool: Vec<usize> = Vec::new();
    let mut i: usize = 0;
    while i < n
        invariant
            i <= n,
            pool@.len() == i,
            forall|k: int| 0 <= k < i ==> pool@[k] == k,
        decreases n - i,
    {
        pool.push(i);
        i += 1;
    }
    let mut chosen: Vec<String> = Vec::new();
    let ghost mut picks: Seq<int> = Seq::empty();
    while chosen.len() < want
        invariant
            want <= n == card_ids@.len(),
            want == min_count(ENEMY_HAND_SIZE as nat, n as nat),
            chosen@.len() <= want,
            chosen@.len() + pool@.len() == n,
            drawn_ids(chosen@, card_ids@, picks),
            forall|k: int| 0 <= k < pool@.len() ==> #[trigger] pool@[k] < n,
            forall|k: int, m: int| 0 <= k < m < pool@.len() ==> #[trigger] pool@[k] != #[trigger] pool@[m],
            forall|k: int, m: int|
                0 <= k < pool@.len() && 0 <= m < picks.len() ==> #[trigger] pool@[k] as int != #[trigger] picks[m],
        decreases want - chosen@.len(),
    {
        let k = draw_below(rng, 0, pool.len());
        let idx = pool.remove(k);
        chosen.push(card_ids[idx].clone());
        proof {
            let old_picks = picks;
            picks = picks.push(idx as int);
            assert forall|a: int, b: int| 0 <= a < b < picks.len() implies #[trigger] picks[a] != #[trigger] picks[b] by {
                if b == picks.len() - 1 {
                    assert(picks[a] == old_picks[a]);
                }
            }
            assert forall|a: int| 0 <= a < picks.len() implies chosen@[a]@ == card_ids@[#[trigger] picks[a]]@ by {
                if a < picks.len() - 1 {
                    assert(picks[a] == old_picks[a]);
                }
            }
        }
    }
    chosen
}

/// `picks` are distinct positions of `from`, and `chosen` holds the strings there.
pub open spec fn drawn_ids(chosen: Seq<String>, from: Seq<String>, picks: Seq<int>) -> bool {
    &&& picks.len() == chosen.len()
    &&& forall|k: int| 0 <= k < picks.len() ==> 0 <= #[trigger] picks[k] < from.len()
    &&& forall|k: int| 0 <= k < picks.len() ==> chosen[k]@ == from[#[trigger] picks[k]]@
    &&& forall|k: int, m: int| 0 <= k < m < picks.len() ==> #[trigger] picks[k] != #[trigger] picks[m]
}

/// Sets a scenario up: the enemies share a hand of up to three distinct cards
/// drawn from `card_ids`; three or four enemies, drawn at random, start with
/// `ENEMY_HEALTH`; the player starts with `player_hand` and `PLAYER_HEALTH`;
/// the map is generated for the scenario and the enemies; the player moves
/// first, then the enemies by index; each actor stands on its tagged tile.
pub fn setup_scenario(
    rng: &mut RngComponent,
    card_ids: &Vec<String>,
    player_hand: Vec<String>,
    scenario: &Scenario,
) -> (r: ScenarioSetup)
    ensures
        r.resources.wf(),
        ({
            let n = (r.resources.turn_order@.len() - 1) as nat;
            &&& 3 <= n <= 4
            &&& r.resources.turn_order@ == seq![Actor::Player] + enemy_roster(n)
            &&& well_placed(r.map, scenario.goals@.len(), enemy_roster(n))
        }),
        r.resources.resources@.len() == r.resources.turn_order@.len(),
        r.resources.resources@[0].0 == Actor::Player,
        r.resources.resources@[0].1@ == fresh_resources(strs(player_hand@), PLAYER_HEALTH as nat),
        exists|hand: Seq<String>, picks: Seq<int>|
            hand.len() == min_count(ENEMY_HAND_SIZE as nat, card_ids@.len()) && drawn_ids(
                hand,
                card_ids@,
                picks,
            ) && forall|k: int|
                1 <= k < r.resources.resources@.len() ==> (#[trigger] r.resources.resources@[k]).0
                    == Actor::Enemy((k - 1) as usize) && r.resources.resources@[k].1@
                    == fresh_resources(strs(hand), ENEMY_HEALTH as nat),
        r.positions@ == tag_positions(r.map.tiles@),
{
    let hand = draw_hand(rng, card_ids);
    let count = draw_below(rng, 3, 5);
    let mut resources: Vec<(Actor, ActorResource)> = Vec::new();
    resources.push((Actor::Player, ActorResource::new(player_hand, PLAYER_HEALTH)));
    let mut turn_order: Vec<Actor> = vec![Actor::Player];
    let mut enemies: Vec<Actor> = Vec::new();
    let mut i: usize = 0;
    while i < count
        invariant
            i <= count <= 4,
            resources@.len() == i + 1,
            turn_order@.len() == i + 1,
            enemies@ == enemy_roster(i as nat),
            turn_order@ == seq![Actor::Player] + enemies@,
            resources@[0].0 == Actor::Player,
            resources@[0].1@ == fresh_resources(strs(player_hand@), PLAYER_HEALTH as nat),
            forall|k: int|
                1 <= k < resources@.len() ==> (#[trigger] resources@[k]).0 == Actor::Enemy((k - 1) as usize)
                    && resources@[k].1@ == fresh_resources(strs(hand@), ENEMY_HEALTH as nat),
        decreases count - i,
    {
        let actor = Actor::Enemy(i);
        resources.push((actor, ActorResource::new(clone_strings(&hand), ENEMY_HEALTH)));
        turn_order.push(actor);
        enemies.push(actor);
        proof {
            assert(enemies@ =~= enemy_roster((i + 1) as nat));
            assert(turn_order@ =~= seq![Actor::Player] + enemies@);
        }
        i += 1;
    }
    let map = ScenarioMap::generate(rng, scenario, &enemies);
    let positions = initial_positions(&map);
    let ledger = ActorResources::new(resources, turn_order);
    proof {
        assert forall|x: int, y: int| 0 <= x < y < ledger.resources@.len() implies (#[trigger] ledger.resources@[x]).0 != (#[trigger] ledger.resources@[y]).0 by {}
        assert forall|k: int| 0 <= k < ledger.turn_order@.len() implies ledger.has(#[trigger] ledger.turn_order@[k]) by {
            if k == 0 {
                assert(ledger.resources@[0].0 == ledger.turn_order@[k]);
            } else {
                assert(ledger.turn_order@[k] == enemies@[k - 1]);
                assert(ledger.resources@[k].0 == ledger.turn_order@[k]);
            }
        }
    }
    ScenarioSetup { resources: ledger, map, positions }
}

} // verus!
