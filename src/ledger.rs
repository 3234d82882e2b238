use crate::actor::Actor;
use vstd::prelude::*;

verus! {

/// Per-actor resources: cards, health and stun.
#[derive(Debug, Clone, Default)]
pub struct ActorResource {
    /// Cards that can be played now.
    pub hand: Vec<String>,
    /// Cards played since the hand was last refilled.
    pub used: Vec<String>,
    /// Cards removed for good.
    pub discarded: Vec<String>,
    /// Zero means defeated.
    pub health: usize,
    pub max_health: usize,
    /// Turns left during which the actor cannot act.
    pub stun_duration: usize,
}

/// An actor's resources, with card names seen as character sequences.
pub struct ResourceView {
    pub hand: Seq<Seq<char>>,
    pub used: Seq<Seq<char>>,
    pub discarded: Seq<Seq<char>>,
    pub health: nat,
    pub max_health: nat,
    pub stun_duration: nat,
}

/// The character sequences of a list of strings.
pub open spec fn strs(v: Seq<String>) -> Seq<Seq<char>> {
    v.map_values(|s: String| s@)
}

impl View for ActorResource {
    type V = ResourceView;

    open spec fn view(&self) -> ResourceView {
        ResourceView {
            hand: strs(self.hand@),
            used: strs(self.used@),
            discarded: strs(self.discarded@),
            health: self.health as nat,
            max_health: self.max_health as nat,
            stun_duration: self.stun_duration as nat,
        }
    }
}

/// Resources an actor starts a scenario with: a hand, nothing used or
/// discarded, full health and no stun.
pub open spec fn fresh_resources(hand: Seq<Seq<char>>, health: nat) -> ResourceView {
    ResourceView {
        hand,
        used: Seq::empty(),
        discarded: Seq::empty(),
        health,
        max_health: health,
        stun_duration: 0,
    }
}

/// The hand without any copy of `card`.
pub open spec fn hand_without(hand: Seq<Seq<char>>, card: Seq<char>) -> Seq<Seq<char>> {
    hand.filter(|c: Seq<char>| c != card)
}

/// Resources after `card` is played from the hand: it leaves the hand for the
/// used pile, and an emptied hand takes back the whole used pile, in order.
pub open spec fn played(r: ResourceView, card: Seq<char>) -> ResourceView {
    let hand = hand_without(r.hand, card);
    let used = r.used.push(card);
    if hand.len() == 0 {
        ResourceView {
            hand: used,
            used: Seq::empty(),
            discarded: r.discarded,
            health: r.health,
            max_health: r.max_health,
            stun_duration: r.stun_duration,
        }
    } else {
        ResourceView {
            hand,
            used,
            discarded: r.discarded,
            health: r.health,
            max_health: r.max_health,
            stun_duration: r.stun_duration,
        }
    }
}

/// Resources after the cards are played one after another, in order.
pub open spec fn play_all(r: ResourceView, cards: Seq<Seq<char>>) -> ResourceView
    decreases cards.len(),
{
    if cards.len() == 0 {
        r
    } else {
        play_all(played(r, cards[0]), cards.subrange(1, cards.len() as int))
    }
}

proof fn lemma_without_absent(s: Seq<Seq<char>>, card: Seq<char>)
    requires
        forall|i: int| 0 <= i < s.len() ==> s[i] != card,
    ensures
        hand_without(s, card) == s,
    decreases s.len(),
{
    reveal(Seq::filter);
    if s.len() > 0 {
        lemma_without_absent(s.drop_last(), card);
        assert(s.drop_last().push(s.last()) == s);
    }
}

proof fn lemma_without_first(s: Seq<Seq<char>>)
    requires
        s.len() > 0,
        s.no_duplicates(),
    ensures
        hand_without(s, s[0]) == s.subrange(1, s.len() as int),
{
    let rest = s.subrange(1, s.len() as int);
    assert(s == seq![s[0]] + rest);
    rest.lemma_filter_prepend(s[0], |c: Seq<char>| c != s[0]);
    assert forall|i: int| 0 <= i < rest.len() implies rest[i] != s[0] by {
        assert(rest[i] == s[i + 1]);
    }
    lemma_without_absent(rest, s[0]);
    assert(Seq::<Seq<char>>::empty() + rest == rest);
}

proof fn lemma_recycle_from(r: ResourceView, h: Seq<Seq<char>>, k: int)
    requires
        h.no_duplicates(),
        0 <= k < h.len(),
    ensures
        play_all(
            ResourceView { hand: h.subrange(k, h.len() as int), used: h.subrange(0, k), ..r },
            h.subrange(k, h.len() as int),
        ) == (ResourceView { hand: h, used: Seq::empty(), ..r }),
    decreases h.len() - k,
{
    let n = h.len() as int;
    let rk = ResourceView { hand: h.subrange(k, n), used: h.subrange(0, k), ..r };
    let tail = h.subrange(k, n);
    assert(tail.no_duplicates()) by {
        assert forall|i: int, j: int| 0 <= i < tail.len() && 0 <= j < tail.len() && i != j implies tail[i] != tail[j] by {
            assert(tail[i] == h[k + i] && tail[j] == h[k + j]);
        }
    }
    lemma_without_first(tail);
    assert(tail[0] == h[k]);
    assert(tail.subrange(1, tail.len() as int) == h.subrange(k + 1, n));
    assert(h.subrange(0, k).push(h[k]) == h.subrange(0, k + 1));
    let next = played(rk, h[k]);
    assert(play_all(rk, tail) == play_all(played(rk, tail[0]), tail.subrange(1, tail.len() as int)));
    if k + 1 == n {
        assert(h.subrange(0, k + 1) == h);
        assert(h.subrange(k + 1, n).len() == 0);
        assert(next == (ResourceView { hand: h, used: Seq::empty(), ..r }));
        assert(play_all(next, h.subrange(k + 1, n)) == next);
    } else {
        assert(next == (ResourceView { hand: h.subrange(k + 1, n), used: h.subrange(0, k + 1), ..r }));
        lemma_recycle_from(r, h, k + 1);
    }
}

/// Playing every card of a hand of distinct cards, in order, with nothing
/// used yet, gives the hand back as it was, in the same order, with nothing used.
pub proof fn lemma_hand_recycles(r: ResourceView)
    requires
        r.hand.len() > 0,
        r.hand.no_duplicates(),
        r.used.len() == 0,
    ensures
        play_all(r, r.hand) == r,
{
    let h = r.hand;
    lemma_recycle_from(r, h, 0);
    assert(h.subrange(0, h.len() as int) == h);
    assert(r.used =~= Seq::<Seq<char>>::empty());
    assert(h.subrange(0, 0) == r.used);
    assert((ResourceView { hand: h.subrange(0, h.len() as int), used: h.subrange(0, 0), ..r }) == r);
    assert((ResourceView { hand: h, used: Seq::empty(), ..r }) == r);
}

/// Resources once an intermission is over: the used cards and the chosen
/// ones join the hand, in that order.
pub open spec fn refilled(r: ResourceView, chosen: Seq<Seq<char>>) -> ResourceView {
    ResourceView { hand: r.hand + r.used + chosen, used: Seq::empty(), ..r }
}

/// Resources after `damage` is taken; health stops at zero.
pub open spec fn damaged(r: ResourceView, damage: nat) -> ResourceView {
    ResourceView {
        health: if r.health >= damage {
            (r.health - damage) as nat
        } else {
            0
        },
        ..r
    }
}

/// Resources of an actor stunned for `duration` turns.
pub open spec fn stunned(r: ResourceView, duration: nat) -> ResourceView {
    ResourceView { stun_duration: duration, ..r }
}

/// Resources after one stunned turn has passed.
pub open spec fn stun_ticked(r: ResourceView) -> ResourceView {
    ResourceView { stun_duration: (r.stun_duration - 1) as nat, ..r }
}

pub(crate) fn clone_strings(v: &Vec<String>) -> (r: Vec<String>)
    ensures
        r@ == v@,
{
    let mut r: Vec<String> = Vec::new();
    let mut i: usize = 0;
    while i < v.len()
        invariant
            i <= v@.len(),
            r@ == v@.subrange(0, i as int),
        decreases v.len() - i,
    {
        r.push(v[i].clone());
        proof {
            assert(v@.subrange(0, i + 1) == v@.subrange(0, i as int).push(v@[i as int]));
        }
        i += 1;
    }
    proof {
        assert(v@.subrange(0, v@.len() as int) == v@);
    }
    r
}

proof fn lemma_strs_push(v: Seq<String>, s: String)
    ensures
        strs(v.push(s)) == strs(v).push(s@),
{
    assert(strs(v.push(s)) =~= strs(v).push(s@));
}

proof fn lemma_filter_push(s: Seq<Seq<char>>, x: Seq<char>, card: Seq<char>)
    ensures
        hand_without(s.push(x), card) == if x != card {
            hand_without(s, card).push(x)
        } else {
            hand_without(s, card)
        },
{
    reveal(Seq::filter);
    assert(s.push(x).drop_last() == s);
}

impl ActorResource {
    /// Fresh resources: a hand, full health and no stun.
    pub fn new(hand: Vec<String>, health: usize) -> (r: ActorResource)
        ensures
            r@ == fresh_resources(strs(hand@), health as nat),
    {
        let r = ActorResource {
            hand,
            used: Vec::new(),
            discarded: Vec::new(),
            health,
            max_health: health,
            stun_duration: 0,
        };
        proof {
            assert(strs(r.used@) =~= Seq::<Seq<char>>::empty());
            assert(strs(r.discarded@) =~= Seq::<Seq<char>>::empty());
        }
        r
    }

    /// A copy of these resources.
    pub fn duplicate(&self) -> (r: ActorResource)
        ensures
            r@ == self@,
    {
        ActorResource {
            hand: clone_strings(&self.hand),
            used: clone_strings(&self.used),
            discarded: clone_strings(&self.discarded),
            health: self.health,
            max_health: self.max_health,
            stun_duration: self.stun_duration,
        }
    }

    /// These resources with the used cards and then `chosen` added to the hand.
    pub fn refill(&self, chosen: Vec<String>) -> (r: ActorResource)
        ensures
            r@ == refilled(self@, strs(chosen@)),
    {
        let mut hand = clone_strings(&self.hand);
        let mut used = clone_strings(&self.used);
        let mut chosen = chosen;
        let ghost c0 = chosen@;
        hand.append(&mut used);
        hand.append(&mut chosen);
        proof {
            assert(strs(hand@) =~= strs(self.hand@) + strs(self.used@) + strs(c0));
            assert(strs(Seq::<String>::empty()) =~= Seq::<Seq<char>>::empty());
        }
        ActorResource {
            hand,
            used: Vec::new(),
            discarded: clone_strings(&self.discarded),
            health: self.health,
            max_health: self.max_health,
            stun_duration: self.stun_duration,
        }
    }

    /// Whether `card` is in the hand.
    pub fn holds(&self, card: &String) -> (r: bool)
        ensures
            r == self@.hand.contains(card@),
    {
        let mut i: usize = 0;
        while i < self.hand.len()
            invariant
                i <= self.hand@.len(),
                forall|j: int| 0 <= j < i ==> self.hand@[j]@ != card@,
            decreases self.hand.len() - i,
        {
            if self.hand[i] == *card {
                assert(self@.hand[i as int] == card@);
                return true;
            }
            i += 1;
        }
        proof {
            if self@.hand.contains(card@) {
                let j = choose|j: int| 0 <= j < self@.hand.len() && #[trigger] self@.hand[j] == card@;
                assert(self.hand@[j]@ == card@);
            }
        }
        false
    }

    /// Moves `card` from the hand to the used pile; an emptied hand takes the
    /// used pile back.
    pub fn play(&mut self, card: &String)
        ensures
            final(self)@ == played(old(self)@, card@),
    {
        let mut hand: Vec<String> = Vec::new();
        let mut i: usize = 0;
        while i < self.hand.len()
            invariant
                i <= self.hand@.len(),
                strs(hand@) == hand_without(strs(self.hand@.subrange(0, i as int)), card@),
            decreases self.hand.len() - i,
        {
            let c = &self.hand[i];
            proof {
                assert(self.hand@.subrange(0, i + 1) == self.hand@.subrange(0, i as int).push(*c));
                lemma_strs_push(self.hand@.subrange(0, i as int), *c);
                lemma_filter_push(strs(self.hand@.subrange(0, i as int)), c@, card@);
                lemma_strs_push(hand@, *c);
            }
            if *c != *card {
                hand.push(c.clone());
            }
            i += 1;
        }
        proof {
            assert(self.hand@.subrange(0, self.hand@.len() as int) == self.hand@);
            lemma_strs_push(self.used@, *card);
        }
        self.used.push(card.clone());
        if hand.len() == 0 {
            let mut empty: Vec<String> = Vec::new();
            std::mem::swap(&mut self.used, &mut empty);
            self.hand = empty;
        } else {
            self.hand = hand;
        }
        proof {
            assert(strs(Seq::<String>::empty()) =~= Seq::<Seq<char>>::empty());
        }
    }
}

/// Every actor's resources, and the cyclic order in which actors take turns.
#[derive(Debug, Clone, Default)]
pub struct ActorResources {
    /// One entry per actor; keys are unique.
    pub resources: Vec<(Actor, ActorResource)>,
    pub turn_order: Vec<Actor>,
}

impl ActorResources {
    /// The entries, with resources seen through their views.
    pub open spec fn entries(&self) -> Seq<(Actor, ResourceView)> {
        self.resources@.map_values(|e: (Actor, ActorResource)| (e.0, e.1@))
    }

    pub open spec fn keys_unique(&self) -> bool {
        forall|i: int, j: int|
            0 <= i < j < self.resources@.len() ==> (#[trigger] self.resources@[i]).0 != (
            #[trigger] self.resources@[j]).0
    }

    pub open spec fn has(&self, a: Actor) -> bool {
        exists|i: int| 0 <= i < self.resources@.len() && (#[trigger] self.resources@[i]).0 == a
    }

    /// Keys are unique and every actor in the turn order has resources.
    pub open spec fn wf(&self) -> bool {
        &&& self.keys_unique()
        &&& forall|k: int| 0 <= k < self.turn_order@.len() ==> self.has(#[trigger] self.turn_order@[k])
    }

    /// Where `a`'s entry stands (meaningful when `has(a)`).
    pub open spec fn index_of(&self, a: Actor) -> int {
        choose|i: int| 0 <= i < self.resources@.len() && (#[trigger] self.resources@[i]).0 == a
    }

    /// `a`'s resources (meaningful when `has(a)`).
    pub open spec fn resource(&self, a: Actor) -> ResourceView {
        self.resources@[self.index_of(a)].1@
    }

    /// A ledger with these entries and this turn order.
    pub fn new(resources: Vec<(Actor, ActorResource)>, turn_order: Vec<Actor>) -> (r: ActorResources)
        ensures
            r.resources@ == resources@,
            r.turn_order@ == turn_order@,
    {
        ActorResources { resources, turn_order }
    }

    /// Index of `a`'s entry, if it has one.
    pub fn find(&self, a: &Actor) -> (r: Option<usize>)
        requires
            self.keys_unique(),
        ensures
            r is None <==> !self.has(*a),
            r matches Some(i) ==> i == self.index_of(*a) && i < self.resources@.len()
                && self.resources@[i as int].0 == *a,
    {
        let mut i: usize = 0;
        while i < self.resources.len()
            invariant
                i <= self.resources@.len(),
                self.keys_unique(),
                forall|j: int| 0 <= j < i ==> (#[trigger] self.resources@[j]).0 != *a,
            decreases self.resources.len() - i,
        {
            if self.resources[i].0 == *a {
                proof {
                    assert(self.has(*a));
                    let k = self.index_of(*a);
                    assert(self.resources@[k].0 == *a);
                    if k != i {
                        if k < i {
                            assert(self.resources@[k].0 != self.resources@[i as int].0);
                        } else {
                            assert(self.resources@[i as int].0 != self.resources@[k].0);
                        }
                    }
                }
                return Some(i);
            }
            i += 1;
        }
        None
    }

    /// `a`'s resources, if it has any.
    pub fn get(&self, a: &Actor) -> (r: Option<&ActorResource>)
        requires
            self.keys_unique(),
        ensures
            r is None <==> !self.has(*a),
            r matches Some(res) ==> res@ == self.resource(*a),
    {
        match self.find(a) {
            Some(i) => Some(&self.resources[i].1),
            None => None,
        }
    }

    /// Plays `card` from `actor`'s hand when it holds it (see `played`) and
    /// says whether it did; otherwise nothing changes.
    pub fn play_card(&mut self, actor: &Actor, card: &String) -> (r: bool)
        requires
            old(self).wf(),
        ensures
            final(self).wf(),
            final(self).turn_order@ == old(self).turn_order@,
            r == (old(self).has(*actor) && old(self).resource(*actor).hand.contains(card@)),
            r ==> final(self).entries() == old(self).entries().update(
                old(self).index_of(*actor),
                (*actor, played(old(self).resource(*actor), card@)),
            ),
            !r ==> final(self).resources@ == old(self).resources@,
    {
        match self.find(actor) {
            None => false,
            Some(i) => {
                if !self.resources[i].1.holds(card) {
                    return false;
                }
                let mut res = self.resources[i].1.duplicate();
                res.play(card);
                let ghost before = *self;
                self.resources.set(i, (*actor, res));
                proof {
                    assert(self.entries() =~= before.entries().update(i as int, (*actor, played(before.resource(*actor), card@))));
                    assert forall|k: int| 0 <= k < self.turn_order@.len() implies self.has(#[trigger] self.turn_order@[k]) by {
                        let a = self.turn_order@[k];
                        assert(before.has(a));
                        let j = choose|j: int| 0 <= j < before.resources@.len() && (#[trigger] before.resources@[j]).0 == a;
                        assert(self.resources@[j].0 == a);
                    }
                    assert forall|x: int, y: int| 0 <= x < y < self.resources@.len() implies (#[trigger] self.resources@[x]).0 != (#[trigger] self.resources@[y]).0 by {
                        assert(before.resources@[x].0 != before.resources@[y].0);
                    }
                }
                true
            }
        }
    }

    /// Replaces the resources of entry `i`, keeping its actor.
    pub(crate) fn replace_resource(&mut self, i: usize, res: ActorResource)
        requires
            old(self).wf(),
            i < old(self).resources@.len(),
        ensures
            final(self).wf(),
            final(self).turn_order@ == old(self).turn_order@,
            final(self).resources@ == old(self).resources@.update(
                i as int,
                (old(self).resources@[i as int].0, res),
            ),
            final(self).entries() == old(self).entries().update(
                i as int,
                (old(self).resources@[i as int].0, res@),
            ),
    {
        let actor = self.resources[i].0;
        let ghost before = *self;
        self.resources.set(i, (actor, res));
        proof {
            assert(self.entries() =~= before.entries().update(i as int, (actor, res@)));
            assert forall|k: int| 0 <= k < self.turn_order@.len() implies self.has(#[trigger] self.turn_order@[k]) by {
                let a = self.turn_order@[k];
                assert(before.has(a));
                let j = choose|j: int| 0 <= j < before.resources@.len() && (#[trigger] before.resources@[j]).0 == a;
                assert(self.resources@[j].0 == a);
            }
            assert forall|x: int, y: int| 0 <= x < y < self.resources@.len() implies (#[trigger] self.resources@[x]).0 != (#[trigger] self.resources@[y]).0 by {
                assert(before.resources@[x].0 != before.resources@[y].0);
            }
        }
    }

    /// `actor` takes `damage`; its health stops at zero. Nothing changes for an
    /// actor without resources.
    pub fn apply_damage(&mut self, actor: &Actor, damage: usize)
        requires
            old(self).wf(),
        ensures
            final(self).wf(),
            final(self).turn_order@ == old(self).turn_order@,
            old(self).has(*actor) ==> final(self).entries() == old(self).entries().update(
                old(self).index_of(*actor),
                (*actor, damaged(old(self).resource(*actor), damage as nat)),
            ),
            !old(self).has(*actor) ==> final(self).resources@ == old(self).resources@,
    {
        if let Some(i) = self.find(actor) {
            let mut res = self.resources[i].1.duplicate();
            res.health = if res.health >= damage {
                res.health - damage
            } else {
                0
            };
            self.replace_resource(i, res);
        }
    }

    /// `actor` is stunned for `duration` turns. Nothing changes for an actor
    /// without resources.
    pub fn apply_stun(&mut self, actor: &Actor, duration: usize)
        requires
            old(self).wf(),
        ensures
            final(self).wf(),
            final(self).turn_order@ == old(self).turn_order@,
            old(self).has(*actor) ==> final(self).entries() == old(self).entries().update(
                old(self).index_of(*actor),
                (*actor, stunned(old(self).resource(*actor), duration as nat)),
            ),
            !old(self).has(*actor) ==> final(self).resources@ == old(self).resources@,
    {
        if let Some(i) = self.find(actor) {
            let mut res = self.resources[i].1.duplicate();
            res.stun_duration = duration;
            self.replace_resource(i, res);
        }
    }

    /// At the start of `actor`'s turn: when it is stunned, one stunned turn
    /// passes and the result is `true` (the turn is lost); otherwise nothing
    /// changes and the result is `false`.
    pub fn tick_stun(&mut self, actor: &Actor) -> (r: bool)
        requires
            old(self).wf(),
        ensures
            final(self).wf(),
            final(self).turn_order@ == old(self).turn_order@,
            r == (old(self).has(*actor) && old(self).resource(*actor).stun_duration > 0),
            r ==> final(self).entries() == old(self).entries().update(
                old(self).index_of(*actor),
                (*actor, stun_ticked(old(self).resource(*actor))),
            ),
            !r ==> final(self).resources@ == old(self).resources@,
    {
        if let Some(i) = self.find(actor) {
            if self.resources[i].1.stun_duration > 0 {
                let mut res = self.resources[i].1.duplicate();
                res.stun_duration = res.stun_duration - 1;
                self.replace_resource(i, res);
                return true;
            }
        }
        false
    }

    /// Whether `a` has resources and no health left.
    pub open spec fn defeated(&self, a: Actor) -> bool {
        self.has(a) && self.resource(a).health == 0
    }

    /// Whether `actor` is defeated.
    pub fn is_defeated(&self, actor: &Actor) -> (r: bool)
        requires
            self.keys_unique(),
        ensures
            r == self.defeated(*actor),
    {
        match self.find(actor) {
            Some(i) => self.resources[i].1.health == 0,
            None => false,
        }
    }

    /// The player has lost: it has resources and its health is zero.
    pub fn player_failed(&self) -> (r: bool)
        requires
            self.keys_unique(),
        ensures
            r == self.defeated(Actor::Player),
    {
        self.is_defeated(&Actor::Player)
    }

    /// Removes every defeated actor from the turn order; resources stay.
    pub fn prune_defeated(&mut self)
        requires
            old(self).wf(),
        ensures
            final(self).wf(),
            final(self).resources@ == old(self).resources@,
            final(self).turn_order@ == old(self).turn_order@.filter(
                |a: Actor| !old(self).defeated(a),
            ),
    {
        let ghost before = *self;
        let mut order: Vec<Actor> = Vec::new();
        let mut i: usize = 0;
        while i < self.turn_order.len()
            invariant
                i <= self.turn_order@.len(),
                *self == before,
                self.wf(),
                order@ == self.turn_order@.subrange(0, i as int).filter(
                    |a: Actor| !before.defeated(a),
                ),
                forall|k: int| 0 <= k < order@.len() ==> self.has(#[trigger] order@[k]),
            decreases self.turn_order.len() - i,
        {
            let a = self.turn_order[i];
            proof {
                let s = self.turn_order@.subrange(0, i as int);
                assert(self.turn_order@.subrange(0, i + 1) == s.push(a));
                reveal(Seq::filter);
                assert(s.push(a).drop_last() == s);
            }
            if !self.is_defeated(&a) {
                order.push(a);
            }
            i += 1;
        }
        proof {
            assert(self.turn_order@.subrange(0, self.turn_order@.len() as int) == self.turn_order@);
        }
        let ghost new_order = order@;
        assert(forall|k: int| 0 <= k < new_order.len() ==> before.has(#[trigger] new_order[k]));
        self.turn_order = order;
        proof {
            assert(self.resources@ == before.resources@);
            assert(self.turn_order@ == new_order);
            assert forall|k: int| 0 <= k < self.turn_order@.len() implies self.has(#[trigger] self.turn_order@[k]) by {
                assert(before.has(new_order[k]));
                let j = choose|j: int| 0 <= j < before.resources@.len() && (#[trigger] before.resources@[j]).0 == new_order[k];
                assert(self.resources@[j].0 == new_order[k]);
            }
        }
    }

    /// Whether `a` has a place in the turn order.
    pub fn in_turn_order(&self, a: &Actor) -> (r: bool)
        ensures
            r == self.turn_order@.contains(*a),
    {
        let mut i: usize = 0;
        while i < self.turn_order.len()
            invariant
                i <= self.turn_order@.len(),
                forall|j: int| 0 <= j < i ==> self.turn_order@[j] != *a,
            decreases self.turn_order.len() - i,
        {
            if self.turn_order[i] == *a {
                assert(self.turn_order@[i as int] == *a);
                return true;
            }
            i += 1;
        }
        false
    }

    /// The actor whose turn follows `current`'s: the next one in the turn
    /// order, wrapping around; the player when `current` has no place in it.
    pub fn advance_turn(&self, current: &Actor) -> (r: Actor)
        ensures
            r == next_in_turn(self.turn_order@, *current),
    {
        let n = self.turn_order.len();
        let mut i: usize = 0;
        while i < n
            invariant
                i <= n == self.turn_order@.len(),
                forall|j: int| 0 <= j < i ==> self.turn_order@[j] != *current,
            decreases n - i,
        {
            if self.turn_order[i] == *current {
                proof {
                    assert(is_first(self.turn_order@, *current, i as int));
                    lemma_first_unique(self.turn_order@, *current, i as int);
                }
                let next = if i + 1 < n {
                    i + 1
                } else {
                    0
                };
                return self.turn_order[next];
            }
            i += 1;
        }
        Actor::Player
    }
}

/// `i` is where `a` first occurs in `order`.
pub open spec fn is_first(order: Seq<Actor>, a: Actor, i: int) -> bool {
    0 <= i < order.len() && order[i] == a && forall|j: int| 0 <= j < i ==> order[j] != a
}

/// Where `a` first occurs in `order` (meaningful when it occurs).
pub open spec fn first_index(order: Seq<Actor>, a: Actor) -> int {
    choose|i: int| is_first(order, a, i)
}

/// The actor after `a` in the cyclic `order`; the player when `a` is absent.
pub open spec fn next_in_turn(order: Seq<Actor>, a: Actor) -> Actor {
    if order.contains(a) {
        let i = first_index(order, a);
        if i + 1 < order.len() {
            order[i + 1]
        } else {
            order[0]
        }
    } else {
        Actor::Player
    }
}

proof fn lemma_first_unique(order: Seq<Actor>, a: Actor, i: int)
    requires
        is_first(order, a, i),
    ensures
        first_index(order, a) == i,
        order.contains(a),
{
    let k = first_index(order, a);
    assert(is_first(order, a, k));
    if k < i {
        assert(order[k] != a);
    }
    if i < k {
        assert(order[i] != a);
    }
}

/// Turns go round: after the last actor of a turn order in which each actor
/// appears once comes the first.
pub proof fn lemma_turn_wraps(order: Seq<Actor>)
    requires
        order.len() > 0,
        forall|i: int, j: int| 0 <= i < j < order.len() ==> order[i] != order[j],
    ensures
        next_in_turn(order, order.last()) == order[0],
{
    let i = order.len() - 1;
    assert(is_first(order, order.last(), i));
    lemma_first_unique(order, order.last(), i);
}

} // verus!
