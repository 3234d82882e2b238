use crate::actor::Actor;
use crate::card::{Card, CardView};
use crate::engine::{card_with_id, find_card, turn_start_events, Transition, TURN_PAUSE_MS};
use crate::ledger::{refilled, strs, ActorResources};
use crate::turn::{event_views, AnimateActionsEvents, CurrentTurnProcess, ProcessView};
use vstd::prelude::*;

verus! {

/// The views of a list of cards.
pub open spec fn card_views(v: Seq<Card>) -> Seq<CardView> {
    v.map_values(|c: Card| c@)
}

/// Whether the player holds a card with identifier `id`, in hand or used.
pub open spec fn player_holds(resources: ActorResources, id: Seq<char>) -> bool {
    resources.has(Actor::Player) && (resources.resource(Actor::Player).hand.contains(id)
        || resources.resource(Actor::Player).used.contains(id))
}

/// The smallest tier among `cards`; `usize::MAX` when there is none.
pub open spec fn min_tier(cards: Seq<CardView>) -> nat
    decreases cards.len(),
{
    if cards.len() == 0 {
        usize::MAX as nat
    } else {
        let rest = min_tier(cards.drop_last());
        if cards.last().tier < rest {
            cards.last().tier
        } else {
            rest
        }
    }
}

proof fn lemma_card_views_push(v: Seq<Card>, c: Card)
    ensures
        card_views(v.push(c)) == card_views(v).push(c@),
{
    assert(card_views(v.push(c)) =~= card_views(v).push(c@));
}

proof fn lemma_filter_push(s: Seq<CardView>, x: CardView, f: spec_fn(CardView) -> bool)
    ensures
        s.push(x).filter(f) == if f(x) {
            s.filter(f).push(x)
        } else {
            s.filter(f)
        },
{
    reveal(Seq::filter);
    assert(s.push(x).drop_last() == s);
}

/// The cards of the catalogue the player starts with: those of tier zero.
pub fn starting_cards(cards: &Vec<Card>) -> (r: Vec<Card>)
    ensures
        card_views(r@) == card_views(cards@).filter(|c: CardView| c.tier == 0),
{
    let mut r: Vec<Card> = Vec::new();
    let mut i: usize = 0;
    while i < cards.len()
        invariant
            i <= cards@.len(),
            card_views(r@) == card_views(cards@.subrange(0, i as int)).filter(
                |c: CardView| c.tier == 0,
            ),
        decreases cards.len() - i,
    {
        let ghost before = r@;
        proof {
            assert(cards@.subrange(0, i + 1) == cards@.subrange(0, i as int).push(cards@[i as int]));
            lemma_card_views_push(cards@.subrange(0, i as int), cards@[i as int]);
            lemma_filter_push(card_views(cards@.subrange(0, i as int)), cards@[i as int]@, |c: CardView| c.tier == 0);
        }
        if cards[i].tier == 0 {
            let c = cards[i].duplicate();
            r.push(c);
            proof {
                lemma_card_views_push(before, c);
            }
        }
        i += 1;
    }
    proof {
        assert(cards@.subrange(0, cards@.len() as int) == cards@);
    }
    r
}

fn holds_id(v: &Vec<String>, id: &String) -> (r: bool)
    ensures
        r == strs(v@).contains(id@),
{
    let mut i: usize = 0;
    while i < v.len()
        invariant
            i <= v@.len(),
            forall|j: int| 0 <= j < i ==> v@[j]@ != id@,
        decreases v.len() - i,
    {
        if v[i] == *id {
            assert(strs(v@)[i as int] == id@);
            return true;
        }
        i += 1;
    }
    proof {
        if strs(v@).contains(id@) {
            let j = choose|j: int| 0 <= j < strs(v@).len() && #[trigger] strs(v@)[j] == id@;
            assert(v@[j]@ == id@);
        }
    }
    false
}

/// The cards offered between two goals: those of the catalogue the player
/// holds neither in hand nor among its used cards.
pub fn intermission_offer(cards: &Vec<Card>, resources: &ActorResources) -> (r: Vec<Card>)
    requires
        resources.keys_unique(),
    ensures
        card_views(r@) == card_views(cards@).filter(
            |c: CardView| !player_holds(*resources, c.id),
        ),
{
    let player = resources.get(&Actor::Player);
    let mut r: Vec<Card> = Vec::new();
    let mut i: usize = 0;
    while i < cards.len()
        invariant
            i <= cards@.len(),
            player is None <==> !resources.has(Actor::Player),
            player matches Some(res) ==> res@ == resources.resource(Actor::Player),
            card_views(r@) == card_views(cards@.subrange(0, i as int)).filter(
                |c: CardView| !player_holds(*resources, c.id),
            ),
        decreases cards.len() - i,
    {
        let ghost before = r@;
        proof {
            assert(cards@.subrange(0, i + 1) == cards@.subrange(0, i as int).push(cards@[i as int]));
            lemma_card_views_push(cards@.subrange(0, i as int), cards@[i as int]);
            lemma_filter_push(
                card_views(cards@.subrange(0, i as int)),
                cards@[i as int]@,
                |c: CardView| !player_holds(*resources, c.id),
            );
        }
        let held = match player {
            Some(res) => holds_id(&res.hand, &cards[i].id) || holds_id(&res.used, &cards[i].id),
            None => false,
        };
        if !held {
            let c = cards[i].duplicate();
            r.push(c);
            proof {
                lemma_card_views_push(before, c);
            }
        }
        i += 1;
    }
    proof {
        assert(cards@.subrange(0, cards@.len() as int) == cards@);
    }
    r
}

/// The cards of the catalogue that are not yet available.
pub open spec fn not_available(cards: Seq<CardView>, available: Seq<Card>) -> Seq<CardView> {
    cards.filter(|c: CardView| !card_views(available).map_values(|a: CardView| a.id).contains(c.id))
}

fn ids_of(cards: &Vec<Card>) -> (r: Vec<String>)
    ensures
        strs(r@) == card_views(cards@).map_values(|a: CardView| a.id),
{
    let mut r: Vec<String> = Vec::new();
    let mut i: usize = 0;
    while i < cards.len()
        invariant
            i <= cards@.len(),
            strs(r@) == card_views(cards@.subrange(0, i as int)).map_values(|a: CardView| a.id),
        decreases cards.len() - i,
    {
        let ghost old_r = r@;
        r.push(cards[i].id.clone());
        proof {
            let sub = cards@.subrange(0, i as int);
            assert(cards@.subrange(0, i + 1) == sub.push(cards@[i as int]));
            lemma_card_views_push(sub, cards@[i as int]);
            assert(strs(r@) =~= strs(old_r).push(cards@[i as int].id@));
            assert(card_views(sub).push(cards@[i as int]@).map_values(|a: CardView| a.id)
                =~= card_views(sub).map_values(|a: CardView| a.id).push(cards@[i as int].id@));
        }
        i += 1;
    }
    proof {
        assert(cards@.subrange(0, cards@.len() as int) == cards@);
    }
    r
}

/// The cards offered after a failure: among the catalogue cards not yet
/// available, those of the lowest tier.
pub fn failure_rewards(cards: &Vec<Card>, available: &Vec<Card>) -> (r: Vec<Card>)
    ensures
        card_views(r@) == not_available(card_views(cards@), available@).filter(
            |c: CardView| c.tier <= min_tier(not_available(card_views(cards@), available@)),
        ),
{
    let known = ids_of(available);
    let ghost known_ids = card_views(available@).map_values(|a: CardView| a.id);
    let mut remaining: Vec<Card> = Vec::new();
    let mut i: usize = 0;
    while i < cards.len()
        invariant
            i <= cards@.len(),
            strs(known@) == known_ids,
            known_ids == card_views(available@).map_values(|a: CardView| a.id),
            card_views(remaining@) == not_available(card_views(cards@.subrange(0, i as int)), available@),
        decreases cards.len() - i,
    {
        let ghost before = remaining@;
        proof {
            assert(cards@.subrange(0, i + 1) == cards@.subrange(0, i as int).push(cards@[i as int]));
            lemma_card_views_push(cards@.subrange(0, i as int), cards@[i as int]);
            lemma_filter_push(
                card_views(cards@.subrange(0, i as int)),
                cards@[i as int]@,
                |c: CardView| !known_ids.contains(c.id),
            );
        }
        if !holds_id(&known, &cards[i].id) {
            let c = cards[i].duplicate();
            remaining.push(c);
            proof {
                lemma_card_views_push(before, c);
            }
        }
        i += 1;
    }
    proof {
        assert(cards@.subrange(0, cards@.len() as int) == cards@);
    }
    let ghost rem = card_views(remaining@);
    let mut min: usize = usize::MAX;
    let mut k: usize = 0;
    while k < remaining.len()
        invariant
            k <= remaining@.len(),
            rem == card_views(remaining@),
            min as nat == min_tier(rem.subrange(0, k as int)),
        decreases remaining.len() - k,
    {
        proof {
            assert(rem.subrange(0, k + 1).drop_last() == rem.subrange(0, k as int));
            assert(rem.subrange(0, k + 1).last() == remaining@[k as int]@);
        }
        if remaining[k].tier < min {
            min = remaining[k].tier;
        }
        k += 1;
    }
    proof {
        assert(rem.subrange(0, rem.len() as int) == rem);
    }
    let mut r: Vec<Card> = Vec::new();
    let mut j: usize = 0;
    while j < remaining.len()
        invariant
            j <= remaining@.len(),
            rem == card_views(remaining@),
            min as nat == min_tier(rem),
            card_views(r@) == card_views(remaining@.subrange(0, j as int)).filter(
                |c: CardView| c.tier <= min_tier(rem),
            ),
        decreases remaining.len() - j,
    {
        let ghost before = r@;
        proof {
            assert(remaining@.subrange(0, j + 1) == remaining@.subrange(0, j as int).push(remaining@[j as int]));
            lemma_card_views_push(remaining@.subrange(0, j as int), remaining@[j as int]);
            lemma_filter_push(
                card_views(remaining@.subrange(0, j as int)),
                remaining@[j as int]@,
                |c: CardView| c.tier <= min_tier(rem),
            );
        }
        if remaining[j].tier <= min {
            let c = remaining[j].duplicate();
            r.push(c);
            proof {
                lemma_card_views_push(before, c);
            }
        }
        j += 1;
    }
    proof {
        assert(remaining@.subrange(0, remaining@.len() as int) == remaining@);
    }
    r
}

/// Ends an intermission: the player's used cards and the cards it chose join
/// its hand, and the player's turn begins.
pub fn complete_intermission(resources: &mut ActorResources, selected: Vec<String>) -> (r: Transition)
    requires
        old(resources).wf(),
    ensures
        final(resources).wf(),
        final(resources).turn_order@ == old(resources).turn_order@,
        old(resources).has(Actor::Player) ==> final(resources).entries() == old(resources).entries().update(
            old(resources).index_of(Actor::Player),
            (Actor::Player, refilled(old(resources).resource(Actor::Player), strs(selected@))),
        ),
        !old(resources).has(Actor::Player) ==> final(resources).resources@ == old(resources).resources@,
        r.process matches Some(p) && p@ == ProcessView::Thinking(Actor::Player),
        event_views(r.events@) == turn_start_events(Actor::Player),
{
    if let Some(i) = resources.find(&Actor::Player) {
        let res = resources.resources[i].1.refill(selected);
        resources.replace_resource(i, res);
    }
    let events = vec![AnimateActionsEvents::Wait(TURN_PAUSE_MS), AnimateActionsEvents::Continue(Actor::Player)];
    proof {
        assert(event_views(events@) =~= turn_start_events(Actor::Player));
    }
    Transition { process: Some(CurrentTurnProcess::Thinking(Actor::Player)), events }
}

/// `k` is the first card of `cards` with identifier `id`.
pub open spec fn is_first_id(cards: Seq<CardView>, id: Seq<char>, k: int) -> bool {
    0 <= k < cards.len() && cards[k].id == id && forall|j: int|
        0 <= j < k ==> (#[trigger] cards[j]).id != id
}

/// `c` made available: it replaces the card with its identifier, if there is
/// one, or joins the end.
pub open spec fn with_card(available: Seq<CardView>, c: CardView) -> Seq<CardView> {
    if exists|k: int| is_first_id(available, c.id, k) {
        available.update(choose|k: int| is_first_id(available, c.id, k), c)
    } else {
        available.push(c)
    }
}

/// The available cards once the catalogue's cards named by `chosen` are
/// made available, one after another; names the catalogue lacks are skipped.
pub open spec fn learned(available: Seq<CardView>, cards: Seq<Card>, chosen: Seq<Seq<char>>) -> Seq<
    CardView,
>
    decreases chosen.len(),
{
    if chosen.len() == 0 {
        available
    } else {
        let prev = learned(available, cards, chosen.drop_last());
        match card_with_id(cards, chosen.last()) {
            Some(c) => with_card(prev, c),
            None => prev,
        }
    }
}

/// Makes the chosen cards of the catalogue available (after a failure, the
/// player learns them).
pub fn learn_cards(available: &mut Vec<Card>, cards: &Vec<Card>, chosen: &Vec<String>)
    ensures
        card_views(final(available)@) == learned(card_views(old(available)@), cards@, strs(chosen@)),
{
    let ghost start = card_views(available@);
    let mut i: usize = 0;
    while i < chosen.len()
        invariant
            i <= chosen@.len(),
            start == card_views(old(available)@),
            card_views(available@) == learned(start, cards@, strs(chosen@.subrange(0, i as int))),
        decreases chosen.len() - i,
    {
        proof {
            assert(strs(chosen@.subrange(0, i + 1)).drop_last() =~= strs(chosen@.subrange(0, i as int)));
            assert(strs(chosen@.subrange(0, i + 1)).last() == chosen@[i as int]@);
        }
        let ghost prev = card_views(available@);
        if let Some(card) = find_card(cards, &chosen[i]) {
            let mut k: usize = 0;
            while k < available.len() && available[k].id != card.id
                invariant
                    k <= available@.len(),
                    card_views(available@) == prev,
                    forall|j: int| 0 <= j < k ==> (#[trigger] prev[j]).id != card@.id,
                decreases available.len() - k,
            {
                k += 1;
            }
            let found = k < available.len();
            if found {
                proof {
                    assert(prev[k as int] == available@[k as int]@);
                    assert(is_first_id(prev, card@.id, k as int));
                    let m = choose|m: int| is_first_id(prev, card@.id, m);
                    if m < k {
                        assert(prev[m].id != card@.id);
                    }
                    if k < m {
                        assert(prev[k as int].id != card@.id);
                    }
                }
                available.set(k, card);
                proof {
                    assert(card_views(available@) =~= prev.update(k as int, card@));
                }
            } else {
                proof {
                    if exists|m: int| is_first_id(prev, card@.id, m) {
                        let m = choose|m: int| is_first_id(prev, card@.id, m);
                        assert(prev[m].id == card@.id);
                    }
                }
                proof {
                    lemma_card_views_push(available@, card);
                }
                available.push(card);
            }
        }
        i += 1;
    }
    proof {
        assert(chosen@.subrange(0, chosen@.len() as int) == chosen@);
    }
}

} // verus!
