use crate::actor::Actor;
use crate::rng::draw_below;
use crate::story::Scenario;
use bevy_turborand::RngComponent;
use vstd::prelude::*;

verus! {

/// The kind of ground a tile holds.
#[derive(Debug, Clone, Copy, PartialEq, Eq, Structural)]
pub enum TileType {
    Empty,
    Floor,
    Obstacle,
    Wall,
}

/// A special role a tile plays in a scenario.
#[derive(Debug, Clone, Copy, PartialEq, Eq, Structural)]
pub enum TileTag {
    NoTag,
    Start,
    Target(usize),
    Enemy(Actor),
}

/// One grid cell of a map.
#[derive(Debug, Clone, Copy, PartialEq, Eq)]
pub struct Tile {
    pub pos: (usize, usize),
    pub tile_type: TileType,
    pub tag: TileTag,
}

/// A rectangular grid of tiles, stored column by column.
#[derive(Debug, Clone)]
pub struct ScenarioMap {
    pub width: usize,
    pub height: usize,
    pub tiles: Vec<Tile>,
}

/// Smallest side of a generated map.
pub const MIN_SIDE: usize = 10;

/// Largest side of a generated map.
pub const MAX_SIDE: usize = 20;

/// How many tiles satisfy `f`.
pub open spec fn count_where(s: Seq<Tile>, f: spec_fn(Tile) -> bool) -> nat
    decreases s.len(),
{
    if s.len() == 0 {
        0
    } else {
        count_where(s.drop_last(), f) + if f(s.last()) {
            1nat
        } else {
            0nat
        }
    }
}

/// How many tiles carry `tag`.
pub open spec fn count_tag(s: Seq<Tile>, tag: TileTag) -> nat {
    count_where(s, |t: Tile| t.tag == tag)
}

/// How many tiles carry an enemy tag of any actor.
pub open spec fn count_enemy_tags(s: Seq<Tile>) -> nat {
    count_where(s, |t: Tile| t.tag is Enemy)
}

/// How many tiles carry a target tag of any goal.
pub open spec fn count_target_tags(s: Seq<Tile>) -> nat {
    count_where(s, |t: Tile| t.tag is Target)
}

/// How often `a` occurs in `s`.
pub open spec fn count_actor(s: Seq<Actor>, a: Actor) -> nat
    decreases s.len(),
{
    if s.len() == 0 {
        0
    } else {
        count_actor(s.drop_last(), a) + if s.last() == a {
            1nat
        } else {
            0nat
        }
    }
}

/// Tiles laid out column by column: tile `x * height + y` sits at `(x, y)`.
pub open spec fn grid_layout(tiles: Seq<Tile>, width: nat, height: nat) -> bool {
    &&& tiles.len() == width * height
    &&& forall|i: int|
        0 <= i < tiles.len() ==> {
            let p = #[trigger] tiles[i].pos;
            p.0 < width && p.1 < height && i == p.0 * height + p.1
        }
}

/// A tag names one of the first `goals` goals or one of `enemies`, or no one.
pub open spec fn tag_in_range(t: TileTag, goals: nat, enemies: Seq<Actor>) -> bool {
    match t {
        TileTag::Target(g) => g < goals,
        TileTag::Enemy(a) => enemies.contains(a),
        _ => true,
    }
}

/// The placement rules of a generated map.
pub open spec fn well_placed(m: ScenarioMap, goals: nat, enemies: Seq<Actor>) -> bool {
    &&& MIN_SIDE <= m.width <= MAX_SIDE
    &&& MIN_SIDE <= m.height <= MAX_SIDE
    &&& grid_layout(m.tiles@, m.width as nat, m.height as nat)
    &&& forall|i: int|
        0 <= i < m.tiles@.len() && !(#[trigger] m.tiles@[i].tag is NoTag) ==> m.tiles@[i].tile_type
            == TileType::Floor
    &&& count_tag(m.tiles@, TileTag::Start) == 1
    &&& forall|i: int|
        0 <= i < m.tiles@.len() ==> tag_in_range(#[trigger] m.tiles@[i].tag, goals, enemies)
    &&& (1 + goals + enemies.len() <= m.tiles@.len() ==> {
        &&& count_target_tags(m.tiles@) == goals
        &&& forall|g: usize| #[trigger]
            count_tag(m.tiles@, TileTag::Target(g)) == if g < goals {
                1nat
            } else {
                0nat
            }
        &&& count_enemy_tags(m.tiles@) == enemies.len()
        &&& forall|a: Actor| #[trigger]
            count_tag(m.tiles@, TileTag::Enemy(a)) == count_actor(enemies, a)
    })
}

proof fn lemma_count_update(s: Seq<Tile>, i: int, x: Tile, f: spec_fn(Tile) -> bool)
    requires
        0 <= i < s.len(),
    ensures
        count_where(s.update(i, x), f) + (if f(s[i]) {
            1nat
        } else {
            0nat
        }) == count_where(s, f) + (if f(x) {
            1nat
        } else {
            0nat
        }),
    decreases s.len(),
{
    let t = s.update(i, x);
    if i < s.len() - 1 {
        assert(t.drop_last() == s.drop_last().update(i, x));
        lemma_count_update(s.drop_last(), i, x, f);
    } else {
        assert(t.drop_last() == s.drop_last());
    }
}

proof fn lemma_count_witness(s: Seq<Tile>, f: spec_fn(Tile) -> bool, i: int)
    requires
        0 <= i < s.len(),
        f(s[i]),
    ensures
        count_where(s, f) > 0,
    decreases s.len(),
{
    if i < s.len() - 1 {
        assert(s.drop_last()[i] == s[i]);
        lemma_count_witness(s.drop_last(), f, i);
    }
}

proof fn lemma_count_none(s: Seq<Tile>, f: spec_fn(Tile) -> bool)
    requires
        forall|i: int| 0 <= i < s.len() ==> !f(#[trigger] s[i]),
    ensures
        count_where(s, f) == 0,
    decreases s.len(),
{
    if s.len() > 0 {
        assert forall|i: int| 0 <= i < s.drop_last().len() implies !f(#[trigger] s.drop_last()[i]) by {
            assert(s.drop_last()[i] == s[i]);
        }
        lemma_count_none(s.drop_last(), f);
        assert(!f(s[s.len() - 1]));
    }
}

proof fn lemma_count_all(s: Seq<Tile>, f: spec_fn(Tile) -> bool)
    requires
        forall|i: int| 0 <= i < s.len() ==> f(#[trigger] s[i]),
    ensures
        count_where(s, f) == s.len(),
    decreases s.len(),
{
    if s.len() > 0 {
        assert forall|i: int| 0 <= i < s.drop_last().len() implies f(#[trigger] s.drop_last()[i]) by {
            assert(s.drop_last()[i] == s[i]);
        }
        lemma_count_all(s.drop_last(), f);
        assert(f(s[s.len() - 1]));
    }
}

proof fn lemma_count_same_tags(s: Seq<Tile>, t: Seq<Tile>, f: spec_fn(Tile) -> bool)
    requires
        s.len() == t.len(),
        forall|i: int| 0 <= i < s.len() ==> f(#[trigger] s[i]) == f(t[i]),
    ensures
        count_where(s, f) == count_where(t, f),
    decreases s.len(),
{
    if s.len() > 0 {
        assert forall|i: int| 0 <= i < s.drop_last().len() implies f(#[trigger] s.drop_last()[i]) == f(t.drop_last()[i]) by {
            assert(s.drop_last()[i] == s[i]);
            assert(t.drop_last()[i] == t[i]);
        }
        lemma_count_same_tags(s.drop_last(), t.drop_last(), f);
        assert(f(s[s.len() - 1]) == f(t[t.len() - 1]));
    }
}

proof fn lemma_count_actor_push(s: Seq<Actor>, x: Actor, a: Actor)
    ensures
        count_actor(s.push(x), a) == count_actor(s, a) + if x == a {
            1nat
        } else {
            0nat
        },
{
    assert(s.push(x).drop_last() == s);
}

/// A `width` by `height` grid of empty, untagged tiles.
fn blank_tiles(width: usize, height: usize) -> (tiles: Vec<Tile>)
    requires
        width <= MAX_SIDE,
        height <= MAX_SIDE,
    ensures
        grid_layout(tiles@, width as nat, height as nat),
        forall|i: int|
            0 <= i < tiles@.len() ==> (#[trigger] tiles@[i]).tag == TileTag::NoTag
                && tiles@[i].tile_type == TileType::Empty,
{
    let mut tiles: Vec<Tile> = Vec::new();
    let mut x: usize = 0;
    while x < width
        invariant
            x <= width <= MAX_SIDE,
            height <= MAX_SIDE,
            tiles@.len() == x * height,
            forall|i: int|
                0 <= i < tiles@.len() ==> {
                    let p = #[trigger] tiles@[i].pos;
                    p.0 < x && p.1 < height && i == p.0 * height + p.1
                },
            forall|i: int|
                0 <= i < tiles@.len() ==> (#[trigger] tiles@[i]).tag == TileTag::NoTag
                    && tiles@[i].tile_type == TileType::Empty,
        decreases width - x,
    {
        let mut y: usize = 0;
        while y < height
            invariant
                x < width <= MAX_SIDE,
                y <= height <= MAX_SIDE,
                tiles@.len() == x * height + y,
                forall|i: int|
                    0 <= i < tiles@.len() ==> {
                        let p = #[trigger] tiles@[i].pos;
                        p.0 <= x && p.1 < height && i == p.0 * height + p.1
                    },
                forall|i: int|
                    0 <= i < tiles@.len() ==> (#[trigger] tiles@[i]).tag == TileTag::NoTag
                        && tiles@[i].tile_type == TileType::Empty,
            decreases height - y,
        {
            proof {
                assert(x * height + y <= 20 * 20) by (nonlinear_arith)
                    requires
                        x < 20 && y < height && height <= 20,
                ;
            }
            tiles.push(Tile { pos: (x, y), tile_type: TileType::Empty, tag: TileTag::NoTag });
            y += 1;
        }
        proof {
            assert(x * height + height == (x + 1) * height) by (nonlinear_arith);
            assert forall|i: int|
                0 <= i < tiles@.len() implies {
                    let p = #[trigger] tiles@[i].pos;
                    p.0 < x + 1 && p.1 < height && i == p.0 * height + p.1
                } by {}
        }
        x += 1;
    }
    tiles
}

/// Indices of the untagged tiles, in order.
fn untagged_indices(tiles: &Vec<Tile>) -> (r: Vec<usize>)
    ensures
        forall|k: int|
            0 <= k < r@.len() ==> #[trigger] r@[k] < tiles@.len() && tiles@[r@[k] as int].tag
                == TileTag::NoTag,
        r@.len() == 0 ==> count_tag(tiles@, TileTag::NoTag) == 0,
{
    let mut r: Vec<usize> = Vec::new();
    let mut i: usize = 0;
    while i < tiles.len()
        invariant
            i <= tiles@.len(),
            forall|k: int|
                0 <= k < r@.len() ==> #[trigger] r@[k] < tiles@.len() && tiles@[r@[k] as int].tag
                    == TileTag::NoTag,
            r@.len() == 0 ==> forall|j: int| 0 <= j < i ==> (#[trigger] tiles@[j]).tag != TileTag::NoTag,
        decreases tiles.len() - i,
    {
        if tiles[i].tag == TileTag::NoTag {
            r.push(i);
        }
        i += 1;
    }
    proof {
        if r@.len() == 0 {
            let f = |t: Tile| t.tag == TileTag::NoTag;
            assert forall|j: int| 0 <= j < tiles@.len() implies !f(#[trigger] tiles@[j]) by {}
            lemma_count_none(tiles@, f);
        }
    }
    r
}

/// Gives one untagged tile, drawn uniformly among the untagged ones, the type
/// and the tag given; when every tile is tagged nothing changes.
pub(crate) fn random_place_tile(
    rng: &mut RngComponent,
    tiles: &mut Vec<Tile>,
    tile_type: TileType,
    tag: TileTag,
)
    ensures
        count_tag(old(tiles)@, TileTag::NoTag) == 0 ==> final(tiles)@ == old(tiles)@,
        count_tag(old(tiles)@, TileTag::NoTag) > 0 ==> exists|i: int|
            0 <= i < old(tiles)@.len() && (#[trigger] old(tiles)@[i]).tag == TileTag::NoTag
                && final(tiles)@ == old(tiles)@.update(
                i,
                Tile { pos: old(tiles)@[i].pos, tile_type, tag },
            ),
{
    let free = untagged_indices(tiles);
    if free.len() == 0 {
        return ;
    }
    proof {
        assert(free@[0] < tiles@.len());
        lemma_count_witness(tiles@, |t: Tile| t.tag == TileTag::NoTag, free@[0] as int);
    }
    let k = draw_below(rng, 0, free.len());
    let i = free[k];
    proof {
        lemma_count_witness(tiles@, |t: Tile| t.tag == TileTag::NoTag, i as int);
    }
    let pos = tiles[i].pos;
    tiles.set(i, Tile { pos, tile_type, tag });
}

/// The ground type given by a roll in `0..100`: seven in ten floors, then
/// one in ten each of obstacles, walls and empty cells.
pub open spec fn type_for_roll(roll: nat) -> TileType {
    if roll < 70 {
        TileType::Floor
    } else if roll < 80 {
        TileType::Obstacle
    } else if roll < 90 {
        TileType::Wall
    } else {
        TileType::Empty
    }
}

/// The ground type for a roll in `0..100`.
pub fn tile_type_for_roll(roll: usize) -> (r: TileType)
    ensures
        r == type_for_roll(roll as nat),
{
    if roll < 70 {
        TileType::Floor
    } else if roll < 80 {
        TileType::Obstacle
    } else if roll < 90 {
        TileType::Wall
    } else {
        TileType::Empty
    }
}

/// Tagging one untagged tile moves one tile from the untagged count to the count of its new tag.
proof fn lemma_place(before: Seq<Tile>, i: int, x: Tile)
    requires
        0 <= i < before.len(),
        before[i].tag == TileTag::NoTag,
        x.tag != TileTag::NoTag,
    ensures
        count_tag(before.update(i, x), TileTag::NoTag) + 1 == count_tag(before, TileTag::NoTag),
        forall|h: TileTag|
            h != TileTag::NoTag ==> #[trigger] count_tag(before.update(i, x), h) == count_tag(
                before,
                h,
            ) + if h == x.tag {
                1nat
            } else {
                0nat
            },
        count_enemy_tags(before.update(i, x)) == count_enemy_tags(before) + if x.tag is Enemy {
            1nat
        } else {
            0nat
        },
        count_target_tags(before.update(i, x)) == count_target_tags(before) + if x.tag is Target {
            1nat
        } else {
            0nat
        },
{
    lemma_count_update(before, i, x, |t: Tile| t.tag == TileTag::NoTag);
    lemma_count_update(before, i, x, |t: Tile| t.tag is Enemy);
    lemma_count_update(before, i, x, |t: Tile| t.tag is Target);
    assert forall|h: TileTag| h != TileTag::NoTag implies #[trigger] count_tag(before.update(i, x), h)
        == count_tag(before, h) + if h == x.tag {
        1nat
    } else {
        0nat
    } by {
        lemma_count_update(before, i, x, |t: Tile| t.tag == h);
    }
}

/// Tiles with the same tags, place by place, have the same tag counts.
proof fn lemma_same_tags(s: Seq<Tile>, t: Seq<Tile>)
    requires
        s.len() == t.len(),
        forall|i: int| 0 <= i < s.len() ==> (#[trigger] s[i]).tag == t[i].tag,
    ensures
        forall|h: TileTag| #[trigger] count_tag(s, h) == count_tag(t, h),
        count_enemy_tags(s) == count_enemy_tags(t),
        count_target_tags(s) == count_target_tags(t),
{
    assert forall|h: TileTag| #[trigger] count_tag(s, h) == count_tag(t, h) by {
        let f = |x: Tile| x.tag == h;
        assert forall|i: int| 0 <= i < s.len() implies f(#[trigger] s[i]) == f(t[i]) by {}
        lemma_count_same_tags(s, t, f);
    }
    let fe = |x: Tile| x.tag is Enemy;
    assert forall|i: int| 0 <= i < s.len() implies fe(#[trigger] s[i]) == fe(t[i]) by {}
    lemma_count_same_tags(s, t, fe);
    let ft = |x: Tile| x.tag is Target;
    assert forall|i: int| 0 <= i < s.len() implies ft(#[trigger] s[i]) == ft(t[i]) by {}
    lemma_count_same_tags(s, t, ft);
}

/// Where a placement happened, it kept the layout and the floor under every tag.
pub open spec fn placement_keeps(layout: Seq<Tile>, tiles: Seq<Tile>) -> bool {
    &&& tiles.len() == layout.len()
    &&& forall|i: int| 0 <= i < tiles.len() ==> (#[trigger] tiles[i]).pos == layout[i].pos
    &&& forall|i: int|
        0 <= i < tiles.len() && !((#[trigger] tiles[i]).tag is NoTag) ==> tiles[i].tile_type
            == TileType::Floor
}

/// Fills each untagged empty tile with ground drawn by `tile_type_for_roll`.
fn fill_ground(rng: &mut RngComponent, tiles: &mut Vec<Tile>)
    ensures
        final(tiles)@.len() == old(tiles)@.len(),
        forall|i: int|
            0 <= i < final(tiles)@.len() ==> (#[trigger] final(tiles)@[i]).pos == old(tiles)@[i].pos
                && final(tiles)@[i].tag == old(tiles)@[i].tag && (!(old(tiles)@[i].tag is NoTag)
                ==> final(tiles)@[i].tile_type == old(tiles)@[i].tile_type),
{
    let ghost start = tiles@;
    let mut i: usize = 0;
    while i < tiles.len()
        invariant
            i <= tiles@.len() == start.len(),
            forall|j: int|
                0 <= j < tiles@.len() ==> (#[trigger] tiles@[j]).pos == start[j].pos
                    && tiles@[j].tag == start[j].tag && (!(start[j].tag is NoTag)
                    ==> tiles@[j].tile_type == start[j].tile_type),
        decreases tiles.len() - i,
    {
        let t = tiles[i];
        if t.tile_type == TileType::Empty && t.tag == TileTag::NoTag {
            let roll = draw_below(rng, 0, 100);
            let tile_type = tile_type_for_roll(roll);
            tiles.set(i, Tile { pos: t.pos, tile_type, tag: t.tag });
        }
        i += 1;
    }
}

impl ScenarioMap {
    /// Builds a map for `scenario` and the enemy actors `enemies`: a random size
    /// in `10..=20` by `10..=20`, a start tile, one target tile per goal and one
    /// tile per enemy, each on an untagged tile made floor, and random ground elsewhere.
    pub fn generate(rng: &mut RngComponent, scenario: &Scenario, enemies: &Vec<Actor>) -> (m:
        ScenarioMap)
        ensures
            well_placed(m, scenario.goals@.len(), enemies@),
    {
        let width = draw_below(rng, MIN_SIDE, MAX_SIDE + 1);
        let height = draw_below(rng, MIN_SIDE, MAX_SIDE + 1);
        let mut tiles = blank_tiles(width, height);
        let ghost layout = tiles@;
        let ghost total = tiles@.len();
        let ghost goals = scenario.goals@.len();
        let ghost fits = 1 + goals + enemies@.len() <= total;
        proof {
            assert(total >= 100) by (nonlinear_arith)
                requires
                    total == width * height,
                    width >= 10,
                    height >= 10,
            ;
            let f = |t: Tile| t.tag == TileTag::NoTag;
            assert forall|i: int| 0 <= i < tiles@.len() implies f(#[trigger] tiles@[i]) by {}
            lemma_count_all(tiles@, f);
            assert forall|g: TileTag| g != TileTag::NoTag implies #[trigger] count_tag(tiles@, g) == 0 by {
                let h = |t: Tile| t.tag == g;
                assert forall|i: int| 0 <= i < tiles@.len() implies !h(#[trigger] tiles@[i]) by {}
                lemma_count_none(tiles@, h);
            }
            let fe = |t: Tile| t.tag is Enemy;
            assert forall|i: int| 0 <= i < tiles@.len() implies !fe(#[trigger] tiles@[i]) by {}
            lemma_count_none(tiles@, fe);
            let ft = |t: Tile| t.tag is Target;
            assert forall|i: int| 0 <= i < tiles@.len() implies !ft(#[trigger] tiles@[i]) by {}
            lemma_count_none(tiles@, ft);
        }
        let ghost before = tiles@;
        random_place_tile(rng, &mut tiles, TileType::Floor, TileTag::Start);
        proof {
            if count_tag(before, TileTag::NoTag) > 0 {
                let i = choose|i: int|
                    0 <= i < before.len() && (#[trigger] before[i]).tag == TileTag::NoTag
                        && tiles@ == before.update(i, Tile { pos: before[i].pos, tile_type: TileType::Floor, tag: TileTag::Start });
                lemma_place(before, i, tiles@[i]);
            }
        }
        let mut g: usize = 0;
        while g < scenario.goals.len()
            invariant
                g <= goals == scenario.goals@.len(),
                total == tiles@.len(),
                fits == (1 + goals + enemies@.len() <= total),
                total >= 1,
                placement_keeps(layout, tiles@),
                count_tag(tiles@, TileTag::Start) == 1,
                forall|j: int| 0 <= j < tiles@.len() ==> tag_in_range(#[trigger] tiles@[j].tag, g as nat, Seq::empty()),
                fits ==> {
                    &&& count_tag(tiles@, TileTag::NoTag) == total - 1 - g
                    &&& count_target_tags(tiles@) == g
                    &&& forall|h: usize| #[trigger] count_tag(tiles@, TileTag::Target(h)) == if h < g { 1nat } else { 0nat }
                    &&& count_enemy_tags(tiles@) == 0
                    &&& forall|a: Actor| #[trigger] count_tag(tiles@, TileTag::Enemy(a)) == 0
                },
            decreases goals - g,
        {
            let ghost before = tiles@;
            random_place_tile(rng, &mut tiles, TileType::Floor, TileTag::Target(g));
            proof {
                if fits {
                    let i = choose|i: int|
                        0 <= i < before.len() && (#[trigger] before[i]).tag == TileTag::NoTag
                            && tiles@ == before.update(i, Tile { pos: before[i].pos, tile_type: TileType::Floor, tag: TileTag::Target(g) });
                    lemma_place(before, i, tiles@[i]);
                    assert forall|h: usize| #[trigger] count_tag(tiles@, TileTag::Target(h)) == if h < g + 1 { 1nat } else { 0nat } by {
                        assert(count_tag(before, TileTag::Target(h)) == if h < g { 1nat } else { 0nat });
                    }
                    assert forall|a: Actor| #[trigger] count_tag(tiles@, TileTag::Enemy(a)) == 0 by {
                        assert(count_tag(before, TileTag::Enemy(a)) == 0);
                    }
                }
                if count_tag(before, TileTag::NoTag) > 0 {
                    let i = choose|i: int|
                        0 <= i < before.len() && (#[trigger] before[i]).tag == TileTag::NoTag
                            && tiles@ == before.update(i, Tile { pos: before[i].pos, tile_type: TileType::Floor, tag: TileTag::Target(g) });
                    lemma_place(before, i, tiles@[i]);
                    assert forall|j: int| 0 <= j < tiles@.len() implies tag_in_range(#[trigger] tiles@[j].tag, (g + 1) as nat, Seq::empty()) by {
                        if j != i {
                            assert(tiles@[j] == before[j]);
                            assert(tag_in_range(before[j].tag, g as nat, Seq::empty()));
                        }
                    }
                    assert forall|j: int| 0 <= j < tiles@.len() implies (#[trigger] tiles@[j]).pos == layout[j].pos by {
                        assert(before[j].pos == layout[j].pos);
                    }
                    assert forall|j: int| 0 <= j < tiles@.len() && !((#[trigger] tiles@[j]).tag is NoTag) implies tiles@[j].tile_type == TileType::Floor by {
                        if j != i {
                            assert(tiles@[j] == before[j]);
                        }
                    }
                }
            }
            g += 1;
        }
        let mut e: usize = 0;
        while e < enemies.len()
            invariant
                e <= enemies@.len(),
                goals == scenario.goals@.len(),
                total == tiles@.len(),
                fits == (1 + goals + enemies@.len() <= total),
                placement_keeps(layout, tiles@),
                count_tag(tiles@, TileTag::Start) == 1,
                forall|j: int| 0 <= j < tiles@.len() ==> tag_in_range(#[trigger] tiles@[j].tag, goals as nat, enemies@.subrange(0, e as int)),
                fits ==> {
                    &&& count_tag(tiles@, TileTag::NoTag) == total - 1 - goals - e
                    &&& count_target_tags(tiles@) == goals
                    &&& forall|h: usize| #[trigger] count_tag(tiles@, TileTag::Target(h)) == if h < goals { 1nat } else { 0nat }
                    &&& count_enemy_tags(tiles@) == e
                    &&& forall|a: Actor| #[trigger] count_tag(tiles@, TileTag::Enemy(a)) == count_actor(enemies@.subrange(0, e as int), a)
                },
            decreases enemies@.len() - e,
        {
            let ghost before = tiles@;
            let actor = enemies[e];
            random_place_tile(rng, &mut tiles, TileType::Floor, TileTag::Enemy(actor));
            proof {
                assert(enemies@.subrange(0, e + 1) == enemies@.subrange(0, e as int).push(actor));
                if fits {
                    let i = choose|i: int|
                        0 <= i < before.len() && (#[trigger] before[i]).tag == TileTag::NoTag
                            && tiles@ == before.update(i, Tile { pos: before[i].pos, tile_type: TileType::Floor, tag: TileTag::Enemy(actor) });
                    lemma_place(before, i, tiles@[i]);
                    assert forall|h: usize| #[trigger] count_tag(tiles@, TileTag::Target(h)) == if h < goals { 1nat } else { 0nat } by {
                        assert(count_tag(before, TileTag::Target(h)) == if h < goals { 1nat } else { 0nat });
                    }
                    assert forall|a: Actor| #[trigger] count_tag(tiles@, TileTag::Enemy(a)) == count_actor(enemies@.subrange(0, e + 1), a) by {
                        assert(count_tag(before, TileTag::Enemy(a)) == count_actor(enemies@.subrange(0, e as int), a));
                        lemma_count_actor_push(enemies@.subrange(0, e as int), actor, a);
                    }
                }
                if count_tag(before, TileTag::NoTag) > 0 {
                    let i = choose|i: int|
                        0 <= i < before.len() && (#[trigger] before[i]).tag == TileTag::NoTag
                            && tiles@ == before.update(i, Tile { pos: before[i].pos, tile_type: TileType::Floor, tag: TileTag::Enemy(actor) });
                    lemma_place(before, i, tiles@[i]);
                    assert(enemies@.subrange(0, e + 1)[e as int] == actor);
                    assert forall|j: int| 0 <= j < tiles@.len() implies tag_in_range(#[trigger] tiles@[j].tag, goals as nat, enemies@.subrange(0, e + 1)) by {
                        if j != i {
                            assert(tiles@[j] == before[j]);
                            assert(tag_in_range(before[j].tag, goals as nat, enemies@.subrange(0, e as int)));
                            if let TileTag::Enemy(a) = before[j].tag {
                                let k = choose|k: int| 0 <= k < e && enemies@.subrange(0, e as int)[k] == a;
                                assert(enemies@.subrange(0, e + 1)[k] == a);
                            }
                        }
                    }
                    assert forall|j: int| 0 <= j < tiles@.len() implies (#[trigger] tiles@[j]).pos == layout[j].pos by {
                        assert(before[j].pos == layout[j].pos);
                    }
                    assert forall|j: int| 0 <= j < tiles@.len() && !((#[trigger] tiles@[j]).tag is NoTag) implies tiles@[j].tile_type == TileType::Floor by {
                        if j != i {
                            assert(tiles@[j] == before[j]);
                        }
                    }
                }
            }
            e += 1;
        }
        let ghost placed = tiles@;
        fill_ground(rng, &mut tiles);
        proof {
            assert(enemies@.subrange(0, enemies@.len() as int) == enemies@);
            lemma_same_tags(tiles@, placed);
            assert forall|i: int| 0 <= i < tiles@.len() implies tag_in_range(#[trigger] tiles@[i].tag, goals, enemies@) by {
                assert(tiles@[i].tag == placed[i].tag);
                assert(tag_in_range(placed[i].tag, goals, enemies@));
            }
            assert forall|i: int| 0 <= i < tiles@.len() implies {
                let p = #[trigger] tiles@[i].pos;
                p.0 < width && p.1 < height && i == p.0 * height + p.1
            } by {
                assert(tiles@[i].pos == layout[i].pos);
                assert(layout[i].pos == layout[i].pos);
            }
        }
        ScenarioMap { width, height, tiles }
    }
}

} // verus!
