use crate::actor::Actor;
use crate::ledger::ActorResources;
use crate::rng::draw_below;
use crate::targeting::Cell;
use crate::turn::TargetSelection;
use bevy_turborand::RngComponent;
use vstd::prelude::*;

verus! {

/// `picks` are distinct positions of `from`, and `chosen` lists the cells there.
pub open spec fn drawn_from(chosen: Seq<Cell>, from: Seq<Cell>, picks: Seq<int>) -> bool {
    &&& picks.len() == chosen.len()
    &&& forall|k: int| 0 <= k < picks.len() ==> 0 <= #[trigger] picks[k] < from.len()
    &&& forall|k: int| 0 <= k < picks.len() ==> chosen[k] == from[#[trigger] picks[k]]
    &&& forall|k: int, m: int| 0 <= k < m < picks.len() ==> #[trigger] picks[k] != #[trigger] picks[m]
}

/// The smaller of two counts.
pub open spec fn min_count(a: nat, b: nat) -> nat {
    if a <= b {
        a
    } else {
        b
    }
}

/// Chooses the targets of an enemy: as many cells as the selection asks for
/// (or all of them, when there are fewer), drawn uniformly at random without
/// replacement from the valid targets.
pub fn select_target(rng: &mut RngComponent, selection: &TargetSelection) -> (r: Vec<Cell>)
    ensures
        r@.len() == min_count(
            selection.num_targets_to_select as nat,
            selection.valid_targets@.len(),
        ),
        exists|picks: Seq<int>| drawn_from(r@, selection.valid_targets@, picks),
{
    let n = selection.valid_targets.len();
    let want = if selection.num_targets_to_select <= n {
        selection.num_targets_to_select
    } else {
        n
    };
    let mut pool: Vec<usize> = Vec::new();
    let mut i: usize = 0;
    while i < n
        invariant
            i <= n,
            pool@.len() == i,
            forall|k: int| 0 <= k < i ==> pool@[k] == k,
        decreases n - i,
    {
        pool.push(i);
        i += 1;
    }
    let ghost valid = selection.valid_targets@;
    let mut chosen: Vec<Cell> = Vec::new();
    let ghost mut picks: Seq<int> = Seq::empty();
    while chosen.len() < want
        invariant
            want <= n == valid.len(),
            want == min_count(selection.num_targets_to_select as nat, n as nat),
            chosen@.len() <= want,
            valid == selection.valid_targets@,
            chosen@.len() + pool@.len() == n,
            drawn_from(chosen@, valid, picks),
            forall|k: int| 0 <= k < pool@.len() ==> #[trigger] pool@[k] < n,
            forall|k: int, m: int| 0 <= k < m < pool@.len() ==> #[trigger] pool@[k] != #[trigger] pool@[m],
            forall|k: int, m: int|
                0 <= k < pool@.len() && 0 <= m < picks.len() ==> #[trigger] pool@[k] as int != #[trigger] picks[m],
        decreases want - chosen@.len(),
    {
        let k = draw_below(rng, 0, pool.len());
        let idx = pool.remove(k);
        chosen.push(selection.valid_targets[idx]);
        proof {
            let old_picks = picks;
            picks = picks.push(idx as int);
            assert forall|a: int, b: int| 0 <= a < b < picks.len() implies #[trigger] picks[a] != #[trigger] picks[b] by {
                if b == picks.len() - 1 {
                    assert(picks[a] == old_picks[a]);
                }
            }
            assert forall|a: int| 0 <= a < picks.len() implies chosen@[a] == valid[#[trigger] picks[a]] by {
                if a < picks.len() - 1 {
                    assert(picks[a] == old_picks[a]);
                }
            }
        }
    }
    chosen
}

/// The card an enemy plays: one drawn uniformly from its hand, or none when
/// it has no resources or an empty hand.
pub fn choose_enemy_card(rng: &mut RngComponent, resources: &ActorResources, actor: &Actor) -> (r:
    Option<String>)
    requires
        resources.keys_unique(),
    ensures
        r is None <==> (!resources.has(*actor) || resources.resource(*actor).hand.len() == 0),
        r matches Some(c) ==> resources.resource(*actor).hand.contains(c@),
{
    match resources.get(actor) {
        None => None,
        Some(res) => {
            let n = res.hand.len();
            if n == 0 {
                None
            } else {
                let k = draw_below(rng, 0, n);
                let c = res.hand[k].clone();
                assert(res@.hand[k as int] == c@);
                Some(c)
            }
        },
    }
}

} // verus!
