use crate::actor::{Actor, ActorPosition};
use crate::card::Targetable;
use crate::ledger::ActorResources;
use crate::map::{ScenarioMap, Tile, TileType};
use vstd::prelude::*;

verus! {

/// A grid cell, as `(x, y)`.
pub type Cell = (usize, usize);

/// Two cells are neighbours (or equal) when both coordinates differ by at most one.
pub open spec fn adjacent(p: Cell, q: Cell) -> bool {
    (if p.0 >= q.0 { p.0 - q.0 } else { q.0 - p.0 }) <= 1
        && (if p.1 >= q.1 { p.1 - q.1 } else { q.1 - p.1 }) <= 1
}

/// `p` is reached from `start` in at most `k` rounds of expansion, where each round
/// adds every cell of `cells` that neighbours a cell reached so far.
pub open spec fn reachable(start: Cell, cells: Seq<Cell>, k: nat, p: Cell) -> bool
    decreases k,
{
    if k == 0 {
        p == start
    } else {
        reachable(start, cells, (k - 1) as nat, p) || (p != start && cells.contains(p) && exists|
            q: Cell,
        |
            #![trigger adjacent(q, p)]
            reachable(start, cells, (k - 1) as nat, q) && adjacent(q, p))
    }
}

/// `p` neighbours some cell of `frontier`.
pub open spec fn near_any(frontier: Seq<Cell>, p: Cell) -> bool {
    exists|jj: int| 0 <= jj < frontier.len() && #[trigger] adjacent(frontier[jj], p)
}

/// Reached in exactly `k` rounds, not fewer.
pub open spec fn first_reached(start: Cell, cells: Seq<Cell>, k: nat, p: Cell) -> bool {
    reachable(start, cells, k, p) && (k > 0 ==> !reachable(start, cells, (k - 1) as nat, p))
}

/// What is reached in `k` rounds is still reached in any larger number of rounds.
pub proof fn lemma_reachable_monotone(start: Cell, cells: Seq<Cell>, k: nat, m: nat, p: Cell)
    requires
        k <= m,
        reachable(start, cells, k, p),
    ensures
        reachable(start, cells, m, p),
    decreases m - k,
{
    if k < m {
        lemma_reachable_monotone(start, cells, k, (m - 1) as nat, p);
    }
}

/// One round reaches exactly the start and the cells of `cells` around it.
pub proof fn lemma_reachable_one_round(start: Cell, cells: Seq<Cell>, p: Cell)
    ensures
        reachable(start, cells, 1, p) <==> (p == start || (cells.contains(p) && adjacent(start, p))),
{
    let one: nat = 1;
    reveal_with_fuel(reachable, 2);
    assert((one - 1) as nat == 0);
    if cells.contains(p) && adjacent(start, p) && p != start {
        assert(reachable(start, cells, (one - 1) as nat, start) && adjacent(start, p));
        assert(reachable(start, cells, one, p));
    }
    if reachable(start, cells, one, p) && p != start {
        let q = choose|q: Cell| reachable(start, cells, (one - 1) as nat, q) && #[trigger] adjacent(q, p);
        assert(q == start);
    }
}

fn cells_adjacent(p: Cell, q: Cell) -> (r: bool)
    ensures
        r == adjacent(p, q),
{
    let dx = if p.0 >= q.0 {
        p.0 - q.0
    } else {
        q.0 - p.0
    };
    let dy = if p.1 >= q.1 {
        p.1 - q.1
    } else {
        q.1 - p.1
    };
    dx <= 1 && dy <= 1
}

fn contains_cell(v: &Vec<Cell>, p: Cell) -> (r: bool)
    ensures
        r == v@.contains(p),
{
    let mut i: usize = 0;
    while i < v.len()
        invariant
            i <= v.len(),
            forall|j: int| 0 <= j < i ==> v@[j] != p,
        decreases v.len() - i,
    {
        if v[i].0 == p.0 && v[i].1 == p.1 {
            assert(v@[i as int] == p);
            return true;
        }
        i += 1;
    }
    false
}

fn adjacent_to_any(p: Cell, v: &Vec<Cell>) -> (r: bool)
    ensures
        r == near_any(v@, p),
{
    let mut i: usize = 0;
    while i < v.len()
        invariant
            i <= v.len(),
            forall|j: int| 0 <= j < i ==> !adjacent(#[trigger] v@[j], p),
        decreases v.len() - i,
    {
        if cells_adjacent(v[i], p) {
            return true;
        }
        i += 1;
    }
    false
}

proof fn lemma_concat_contains(a: Seq<Cell>, b: Seq<Cell>, p: Cell)
    ensures
        (a + b).contains(p) <==> (a.contains(p) || b.contains(p)),
{
    if (a + b).contains(p) {
        let m = choose|m: int| 0 <= m < (a + b).len() && #[trigger] (a + b)[m] == p;
        if m < a.len() {
            assert(a[m] == p);
        } else {
            assert(b[m - a.len()] == p);
        }
    }
    if a.contains(p) {
        let m = choose|m: int| 0 <= m < a.len() && #[trigger] a[m] == p;
        assert((a + b)[m] == p);
    }
    if b.contains(p) {
        let m = choose|m: int| 0 <= m < b.len() && #[trigger] b[m] == p;
        assert((a + b)[a.len() + m] == p);
    }
}

proof fn lemma_push_contains(a: Seq<Cell>, x: Cell, p: Cell)
    ensures
        a.push(x).contains(p) <==> (a.contains(p) || p == x),
{
    assert(a.push(x) == a + seq![x]);
    lemma_concat_contains(a, seq![x], p);
    assert(seq![x][0] == x);
    if seq![x].contains(p) {
        let m = choose|m: int| 0 <= m < 1 && #[trigger] seq![x][m] == p;
    }
}

proof fn lemma_push_no_dup(a: Seq<Cell>, x: Cell)
    requires
        a.no_duplicates(),
        !a.contains(x),
    ensures
        a.push(x).no_duplicates(),
{
    assert forall|i: int, j: int|
        0 <= i < a.push(x).len() && 0 <= j < a.push(x).len() && i != j implies a.push(x)[i] != a.push(x)[j] by {
        if i < a.len() && j < a.len() {
            assert(a.push(x)[i] == a[i] && a.push(x)[j] == a[j]);
        } else if i < a.len() {
            assert(a.push(x)[i] == a[i]);
            assert(a.contains(a[i]));
        } else if j < a.len() {
            assert(a.push(x)[j] == a[j]);
            assert(a.contains(a[j]));
        }
    }
}

proof fn lemma_concat_no_dup(a: Seq<Cell>, b: Seq<Cell>)
    requires
        a.no_duplicates(),
        b.no_duplicates(),
        forall|p: Cell| a.contains(p) ==> !b.contains(p),
    ensures
        (a + b).no_duplicates(),
{
    let c = a + b;
    assert forall|i: int, j: int| 0 <= i < c.len() && 0 <= j < c.len() && i != j implies c[i] != c[j] by {
        if i < a.len() && j < a.len() {
            assert(c[i] == a[i] && c[j] == a[j]);
        } else if i >= a.len() && j >= a.len() {
            assert(c[i] == b[i - a.len()] && c[j] == b[j - a.len()]);
        } else if i < a.len() {
            assert(c[i] == a[i] && c[j] == b[j - a.len()]);
            assert(a.contains(a[i]));
            assert(b.contains(b[j - a.len()]));
        } else {
            assert(c[j] == a[j] && c[i] == b[i - a.len()]);
            assert(a.contains(a[j]));
            assert(b.contains(b[i - a.len()]));
        }
    }
}

proof fn lemma_reach_step(start: Cell, cells: Seq<Cell>, k: nat, q: Cell, p: Cell)
    requires
        reachable(start, cells, k, q),
        adjacent(q, p),
        cells.contains(p),
    ensures
        reachable(start, cells, k + 1, p),
{
    let k1: nat = k + 1;
    reveal_with_fuel(reachable, 2);
    assert((k1 - 1) as nat == k);
    assert(reachable(start, cells, (k1 - 1) as nat, q) && adjacent(q, p));
    if p == start {
        lemma_reachable_monotone(start, cells, 0, k1, p);
    }
    assert(reachable(start, cells, k1, p));
}

proof fn lemma_reach_new(start: Cell, cells: Seq<Cell>, k: nat, p: Cell)
    requires
        reachable(start, cells, k + 1, p),
        !reachable(start, cells, k, p),
    ensures
        p != start,
        cells.contains(p),
        exists|q: Cell| reachable(start, cells, k, q) && #[trigger] adjacent(q, p),
{
    let k1: nat = k + 1;
    assert((k1 - 1) as nat == k);
    assert(reachable(start, cells, k1, p));
}

/// The cells of `v` other than `c`, in order.
fn cells_without(v: &Vec<Cell>, c: Cell) -> (r: Vec<Cell>)
    ensures
        forall|p: Cell| r@.contains(p) <==> (p != c && v@.contains(p)),
{
    let mut r: Vec<Cell> = Vec::new();
    let mut i: usize = 0;
    while i < v.len()
        invariant
            i <= v.len(),
            forall|p: Cell| r@.contains(p) <==> (p != c && v@.subrange(0, i as int).contains(p)),
        decreases v.len() - i,
    {
        let p = v[i];
        let ghost before = r@;
        if !(p.0 == c.0 && p.1 == c.1) {
            r.push(p);
        }
        proof {
            assert(v@.subrange(0, i + 1) == v@.subrange(0, i as int).push(p));
            assert forall|q: Cell| r@.contains(q) <==> (q != c && v@.subrange(0, i + 1).contains(q)) by {
                lemma_push_contains(v@.subrange(0, i as int), p, q);
                lemma_push_contains(before, p, q);
            }
        }
        i += 1;
    }
    assert(v@.subrange(0, v@.len() as int) == v@);
    r
}

/// The cells of `unchecked` that neighbour some cell of `frontier`, in the order
/// in which a scan of the frontier finds them (a cell may come more than once).
fn frontier_step(frontier: &Vec<Cell>, unchecked: &Vec<Cell>, checked: &Vec<Cell>) -> (next: Vec<
    Cell,
>)
    requires
        forall|p: Cell| unchecked@.contains(p) ==> !checked@.contains(p),
    ensures
        forall|p: Cell|
            next@.contains(p) <==> (unchecked@.contains(p) && near_any(frontier@, p)),
        next@.no_duplicates(),
{
    let mut next: Vec<Cell> = Vec::new();
    let mut j: usize = 0;
    while j < frontier.len()
        invariant
            j <= frontier.len(),
            next@.no_duplicates(),
            forall|p: Cell| unchecked@.contains(p) ==> !checked@.contains(p),
            forall|p: Cell|
                next@.contains(p) <==> (unchecked@.contains(p) && exists|jj: int|
                    0 <= jj < j && #[trigger] adjacent(frontier@[jj], p)),
        decreases frontier.len() - j,
    {
        let pos = frontier[j];
        let ghost at_start = next@;
        let mut k: usize = 0;
        while k < unchecked.len()
            invariant
                k <= unchecked.len(),
                j < frontier.len(),
                pos == frontier@[j as int],
                next@.no_duplicates(),
                forall|p: Cell| unchecked@.contains(p) ==> !checked@.contains(p),
                forall|p: Cell|
                    at_start.contains(p) <==> (unchecked@.contains(p) && exists|jj: int|
                        0 <= jj < j && #[trigger] adjacent(frontier@[jj], p)),
                forall|p: Cell|
                    next@.contains(p) <==> (at_start.contains(p) || (unchecked@.subrange(
                        0,
                        k as int,
                    ).contains(p) && adjacent(pos, p))),
            decreases unchecked.len() - k,
        {
            let p = unchecked[k];
            let ghost before = next@;
            proof {
                assert(unchecked@.subrange(0, k + 1) == unchecked@.subrange(0, k as int).push(p));
                assert(unchecked@.contains(p)) by {
                    assert(unchecked@[k as int] == p);
                }
            }
            if cells_adjacent(pos, p) {
                if !contains_cell(checked, p) && !contains_cell(&next, p) {
                    next.push(p);
                    proof {
                        lemma_push_no_dup(before, p);
                    }
                }
            }
            proof {
                assert forall|q: Cell|
                    next@.contains(q) <==> (at_start.contains(q) || (unchecked@.subrange(
                        0,
                        k + 1,
                    ).contains(q) && adjacent(pos, q))) by {
                    lemma_push_contains(unchecked@.subrange(0, k as int), p, q);
                    lemma_push_contains(before, p, q);
                }
            }
            k += 1;
        }
        proof {
            assert(unchecked@.subrange(0, unchecked@.len() as int) == unchecked@);
            assert forall|p: Cell|
                next@.contains(p) <==> (unchecked@.contains(p) && exists|jj: int|
                    0 <= jj < j + 1 && #[trigger] adjacent(frontier@[jj], p)) by {
                if unchecked@.contains(p) && adjacent(frontier@[j as int], p) {
                    assert(adjacent(pos, p));
                }
                if unchecked@.contains(p) && (exists|jj: int|
                    0 <= jj < j + 1 && #[trigger] adjacent(frontier@[jj], p)) && !adjacent(pos, p) {
                    let jj = choose|jj: int| 0 <= jj < j + 1 && #[trigger] adjacent(frontier@[jj], p);
                    assert(jj < j);
                }
            }
        }
        j += 1;
    }
    next
}

/// The cells of `unchecked` that neighbour no cell of `frontier`, in order.
fn cells_not_near(unchecked: &Vec<Cell>, frontier: &Vec<Cell>) -> (r: Vec<Cell>)
    ensures
        forall|p: Cell|
            r@.contains(p) <==> (unchecked@.contains(p) && !near_any(frontier@, p)),
{
    let mut r: Vec<Cell> = Vec::new();
    let mut k: usize = 0;
    while k < unchecked.len()
        invariant
            k <= unchecked.len(),
            forall|p: Cell|
                r@.contains(p) <==> (unchecked@.subrange(0, k as int).contains(p) && !near_any(
                    frontier@,
                    p,
                )),
        decreases unchecked.len() - k,
    {
        let p = unchecked[k];
        let ghost before = r@;
        if !adjacent_to_any(p, frontier) {
            r.push(p);
        }
        proof {
            assert(unchecked@.subrange(0, k + 1) == unchecked@.subrange(0, k as int).push(p));
            assert forall|q: Cell|
                r@.contains(q) <==> (unchecked@.subrange(0, k + 1).contains(q) && !near_any(
                    frontier@,
                    q,
                )) by {
                lemma_push_contains(unchecked@.subrange(0, k as int), p, q);
                lemma_push_contains(before, p, q);
            }
        }
        k += 1;
    }
    assert(unchecked@.subrange(0, unchecked@.len() as int) == unchecked@);
    r
}

/// Cells of `positions` reachable from `position` by at most `distance` steps
/// between neighbouring cells of `positions`, together with `position` itself.
/// A cell may be listed more than once; the start comes first.
pub fn positions_within_n(position: &Cell, positions: &Vec<Cell>, distance: usize) -> (r: Vec<
    Cell,
>)
    ensures
        forall|p: Cell| r@.contains(p) <==> reachable(*position, positions@, distance as nat, p),
        r@.len() > 0 && r@[0] == *position,
        r@.no_duplicates(),
{
    let start = *position;
    let ghost cells = positions@;
    let mut checked: Vec<Cell> = Vec::new();
    let mut to_check: Vec<Cell> = vec![start];
    let mut unchecked = cells_without(positions, start);
    proof {
        assert forall|p: Cell| to_check@.contains(p) <==> first_reached(start, cells, 0, p) by {
            if p == start {
                assert(to_check@[0] == p);
            }
        }
    }
    let mut round: usize = 0;
    while round < distance
        invariant
            round <= distance,
            cells == positions@,
            checked@.no_duplicates(),
            to_check@.no_duplicates(),
            checked@.len() > 0 ==> checked@[0] == start,
            checked@.len() == 0 ==> to_check@.len() > 0 && to_check@[0] == start,
            forall|p: Cell|
                (checked@.contains(p) || to_check@.contains(p)) <==> reachable(
                    start,
                    cells,
                    round as nat,
                    p,
                ),
            forall|p: Cell| to_check@.contains(p) <==> first_reached(start, cells, round as nat, p),
            forall|p: Cell|
                #[trigger] checked@.contains(p) ==> round > 0 && reachable(
                    start,
                    cells,
                    (round - 1) as nat,
                    p,
                ),
            forall|p: Cell|
                #[trigger] unchecked@.contains(p) <==> (p != start && cells.contains(p)
                    && !reachable(start, cells, round as nat, p)),
        decreases distance - round,
    {
        let ghost r = round as nat;
        proof {
            assert forall|p: Cell| unchecked@.contains(p) implies !checked@.contains(p) by {
                if checked@.contains(p) {
                    lemma_reachable_monotone(start, cells, (r - 1) as nat, r, p);
                }
            }
        }
        let mut next_check = frontier_step(&to_check, &unchecked, &checked);
        // The cells first reached in the next round are those that neighbour the frontier.
        proof {
            assert forall|p: Cell| next_check@.contains(p) <==> first_reached(start, cells, r + 1, p) by {
                if next_check@.contains(p) {
                    assert(near_any(to_check@, p));
                    let jj = choose|jj: int| 0 <= jj < to_check@.len() && #[trigger] adjacent(to_check@[jj], p);
                    let q = to_check@[jj];
                    assert(to_check@.contains(q));
                    lemma_reach_step(start, cells, r, q, p);
                }
                if first_reached(start, cells, r + 1, p) {
                    lemma_reach_new(start, cells, r, p);
                    let q = choose|q: Cell| reachable(start, cells, r, q) && #[trigger] adjacent(q, p);
                    if r > 0 && reachable(start, cells, (r - 1) as nat, q) {
                        lemma_reach_step(start, cells, (r - 1) as nat, q, p);
                        assert((r - 1) as nat + 1 == r);
                    }
                    assert(first_reached(start, cells, r, q));
                    assert(to_check@.contains(q));
                    let jj = choose|jj: int| 0 <= jj < to_check@.len() && #[trigger] to_check@[jj] == q;
                    assert(adjacent(to_check@[jj], p));
                    assert(near_any(to_check@, p));
                }
            }
        }
        let ghost old_unchecked = unchecked@;
        let remaining = cells_not_near(&unchecked, &to_check);
        unchecked = remaining;
        let ghost old_checked = checked@;
        let ghost old_to_check = to_check@;
        checked.append(&mut to_check);
        to_check = next_check;
        proof {
            assert forall|p: Cell| old_checked.contains(p) implies !old_to_check.contains(p) by {
                if old_to_check.contains(p) {
                    assert(first_reached(start, cells, r, p));
                }
            }
            lemma_concat_no_dup(old_checked, old_to_check);
            assert forall|p: Cell| checked@.contains(p) <==> (old_checked.contains(p) || old_to_check.contains(p)) by {
                lemma_concat_contains(old_checked, old_to_check, p);
            }
            assert forall|p: Cell|
                (checked@.contains(p) || to_check@.contains(p)) <==> reachable(start, cells, r + 1, p) by {
                assert((old_checked.contains(p) || old_to_check.contains(p)) <==> reachable(start, cells, r, p));
                assert(to_check@.contains(p) <==> first_reached(start, cells, r + 1, p));
                if reachable(start, cells, r, p) {
                    lemma_reachable_monotone(start, cells, r, r + 1, p);
                }
            }
            assert forall|p: Cell| checked@.contains(p) implies round + 1 > 0 && reachable(start, cells, r, p) by {
                if old_checked.contains(p) {
                    lemma_reachable_monotone(start, cells, (r - 1) as nat, r, p);
                }
            }
            assert forall|p: Cell|
                unchecked@.contains(p) <==> (p != start && cells.contains(p) && !reachable(start, cells, r + 1, p)) by {
                assert(unchecked@.contains(p) <==> (old_unchecked.contains(p) && !near_any(old_to_check, p)));
                assert(next_check@.contains(p) <==> (old_unchecked.contains(p) && near_any(old_to_check, p)));
                if reachable(start, cells, r, p) {
                    lemma_reachable_monotone(start, cells, r, r + 1, p);
                }
            }
            if old_checked.len() > 0 {
                assert(checked@[0] == old_checked[0]);
            } else {
                assert(checked@[0] == old_to_check[0]);
            }
        }
        round += 1;
    }
    assert(round == distance);
    let ghost old_checked = checked@;
    let ghost old_to_check = to_check@;
    checked.append(&mut to_check);
    proof {
        assert forall|p: Cell| old_checked.contains(p) implies !old_to_check.contains(p) by {
            if old_to_check.contains(p) {
                assert(first_reached(start, cells, round as nat, p));
            }
        }
        lemma_concat_no_dup(old_checked, old_to_check);
        assert forall|p: Cell| checked@.contains(p) <==> reachable(start, cells, distance as nat, p) by {
            lemma_concat_contains(old_checked, old_to_check, p);
        }
        if old_checked.len() > 0 {
            assert(checked@[0] == old_checked[0]);
        } else {
            assert(checked@[0] == old_to_check[0]);
        }
    }
    checked
}

/// Positions of the floor tiles, in tile order.
pub open spec fn floor_cells(tiles: Seq<Tile>) -> Seq<Cell>
    decreases tiles.len(),
{
    if tiles.len() == 0 {
        Seq::empty()
    } else {
        let rest = floor_cells(tiles.drop_last());
        if tiles.last().tile_type == TileType::Floor {
            rest.push(tiles.last().pos)
        } else {
            rest
        }
    }
}

/// Cells where actors stand, in the order given.
pub open spec fn occupied_cells(positions: Seq<(Actor, ActorPosition)>) -> Seq<Cell> {
    positions.map_values(|e: (Actor, ActorPosition)| (e.1.0, e.1.1))
}

/// `j` is the first entry of `actor` among the positions.
pub open spec fn is_first_of(positions: Seq<(Actor, ActorPosition)>, actor: Actor, j: int) -> bool {
    0 <= j < positions.len() && positions[j].0 == actor && forall|k: int|
        0 <= k < j ==> (#[trigger] positions[k]).0 != actor
}

/// Where `actor` stands: its first entry among the positions.
pub open spec fn position_of(positions: Seq<(Actor, ActorPosition)>, actor: Actor) -> Option<Cell> {
    if exists|j: int| is_first_of(positions, actor, j) {
        let j = choose|j: int| is_first_of(positions, actor, j);
        Some((positions[j].1.0, positions[j].1.1))
    } else {
        None
    }
}

/// The cells among which a rule picks its targets.
pub open spec fn candidate_cells(
    rule: Targetable,
    positions: Seq<(Actor, ActorPosition)>,
    tiles: Seq<Tile>,
) -> Seq<Cell> {
    match rule {
        Targetable::Path { .. } => floor_cells(tiles),
        Targetable::Creature { .. } => occupied_cells(positions),
    }
}

/// How far a rule reaches.
pub open spec fn rule_distance(rule: Targetable) -> nat {
    match rule {
        Targetable::Path { max_distance } => max_distance as nat,
        Targetable::Creature { max_distance } => max_distance as nat,
    }
}

fn find_actor(positions: &Vec<(Actor, ActorPosition)>, actor: &Actor) -> (r: Option<Cell>)
    ensures
        r == position_of(positions@, *actor),
{
    let mut j: usize = 0;
    while j < positions.len()
        invariant
            j <= positions@.len(),
            forall|k: int| 0 <= k < j ==> (#[trigger] positions@[k]).0 != *actor,
        decreases positions.len() - j,
    {
        if positions[j].0 == *actor {
            proof {
                assert(is_first_of(positions@, *actor, j as int));
                let m = choose|m: int| is_first_of(positions@, *actor, m);
                if m < j {
                    assert(positions@[m].0 != *actor);
                }
                if j < m {
                    assert(positions@[j as int].0 != *actor);
                }
            }
            let p = positions[j].1;
            return Some((p.0, p.1));
        }
        j += 1;
    }
    proof {
        if exists|m: int| is_first_of(positions@, *actor, m) {
            let m = choose|m: int| is_first_of(positions@, *actor, m);
            assert(positions@[m].0 == *actor);
        }
    }
    None
}

fn floor_positions(tiles: &Vec<Tile>) -> (r: Vec<Cell>)
    ensures
        r@ == floor_cells(tiles@),
{
    let mut r: Vec<Cell> = Vec::new();
    let mut i: usize = 0;
    while i < tiles.len()
        invariant
            i <= tiles@.len(),
            r@ == floor_cells(tiles@.subrange(0, i as int)),
        decreases tiles.len() - i,
    {
        proof {
            assert(tiles@.subrange(0, i + 1).drop_last() == tiles@.subrange(0, i as int));
        }
        if tiles[i].tile_type == TileType::Floor {
            r.push(tiles[i].pos);
        }
        i += 1;
    }
    proof {
        assert(tiles@.subrange(0, tiles@.len() as int) == tiles@);
    }
    r
}

fn occupied_positions(positions: &Vec<(Actor, ActorPosition)>) -> (r: Vec<Cell>)
    ensures
        r@ == occupied_cells(positions@),
{
    let mut r: Vec<Cell> = Vec::new();
    let mut i: usize = 0;
    while i < positions.len()
        invariant
            i <= positions@.len(),
            r@ == occupied_cells(positions@.subrange(0, i as int)),
        decreases positions.len() - i,
    {
        let p = positions[i].1;
        r.push((p.0, p.1));
        proof {
            assert(occupied_cells(positions@.subrange(0, i + 1)) =~= occupied_cells(
                positions@.subrange(0, i as int),
            ).push((p.0, p.1)));
        }
        i += 1;
    }
    proof {
        assert(positions@.subrange(0, positions@.len() as int) == positions@);
    }
    r
}

/// The cells `actor` may target under `targetable`: every cell reachable from
/// where it stands within the rule's distance, stepping between floor tiles
/// (for a path) or between occupied cells (for a creature), its own cell
/// included. Empty when the actor has no position.
pub fn propose_valid_targets(
    actor: &Actor,
    targetable: &Targetable,
    positions: &Vec<(Actor, ActorPosition)>,
    map: &ScenarioMap,
    _resources: &ActorResources,
) -> (r: Vec<Cell>)
    ensures
        r@.no_duplicates(),
        position_of(positions@, *actor) is None ==> r@.len() == 0,
        position_of(positions@, *actor) matches Some(me) ==> forall|p: Cell|
            r@.contains(p) <==> reachable(
                me,
                candidate_cells(*targetable, positions@, map.tiles@),
                rule_distance(*targetable),
                p,
            ),
{
    match find_actor(positions, actor) {
        None => Vec::new(),
        Some(me) => {
            match targetable {
                Targetable::Path { max_distance } => {
                    let cells = floor_positions(&map.tiles);
                    positions_within_n(&me, &cells, *max_distance)
                },
                Targetable::Creature { max_distance } => {
                    let cells = occupied_positions(positions);
                    positions_within_n(&me, &cells, *max_distance)
                },
            }
        },
    }
}

} // verus!
