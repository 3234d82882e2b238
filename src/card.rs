use crate::text::{decimal, decimal_string};
use vstd::prelude::*;
use vstd::string::*;

verus! {

/// One effect of a card.
#[derive(Debug, Clone, Copy, PartialEq, Eq, Structural)]
pub enum CardAction {
    /// Move up to this many steps.
    Move(usize),
    Attack { damage: usize, range: usize },
    Stun { range: usize, duration: usize },
}

/// The shape of the targets an action needs.
#[derive(Debug, Clone, Copy, PartialEq, Eq, Structural)]
pub enum Targetable {
    /// A floor cell within this many steps.
    Path { max_distance: usize },
    /// An occupied cell within this many steps.
    Creature { max_distance: usize },
}

/// A card: its identifier, its display name, its actions in order, and the
/// tier at which it becomes available.
#[derive(Debug, Clone)]
pub struct Card {
    pub id: String,
    pub name: String,
    pub actions: Vec<CardAction>,
    pub tier: usize,
}

/// A card, with its texts seen as character sequences.
pub struct CardView {
    pub id: Seq<char>,
    pub name: Seq<char>,
    pub actions: Seq<CardAction>,
    pub tier: nat,
}

impl View for Card {
    type V = CardView;

    open spec fn view(&self) -> CardView {
        CardView { id: self.id@, name: self.name@, actions: self.actions@, tier: self.tier as nat }
    }
}

/// The targeting rule of an action.
pub open spec fn target_of(a: CardAction) -> Targetable {
    match a {
        CardAction::Move(d) => Targetable::Path { max_distance: d },
        CardAction::Attack { range, .. } => Targetable::Creature { max_distance: range },
        CardAction::Stun { range, .. } => Targetable::Creature { max_distance: range },
    }
}

impl Targetable {
    /// How many cells must be chosen: one, for every rule.
    pub fn num_targets(&self) -> (r: usize)
        ensures
            r == 1,
    {
        match self {
            Targetable::Path { .. } => 1,
            Targetable::Creature { .. } => 1,
        }
    }
}

/// The description of one action.
pub open spec fn action_description(a: CardAction) -> Seq<char> {
    match a {
        CardAction::Move(d) => "Move "@ + decimal(d as nat) + " squares"@,
        CardAction::Attack { damage, range } => "Attack for "@ + decimal(damage as nat)
            + " at range "@ + decimal(range as nat),
        CardAction::Stun { range, duration } => "Stun an enemy at "@ + decimal(range as nat)
            + " for "@ + decimal(duration as nat) + " turns"@,
    }
}

/// The descriptions of non-empty `actions`, one per line.
pub open spec fn joined_descriptions(actions: Seq<CardAction>) -> Seq<char>
    decreases actions.len(),
{
    if actions.len() <= 1 {
        if actions.len() == 1 {
            action_description(actions[0])
        } else {
            Seq::empty()
        }
    } else {
        joined_descriptions(actions.drop_last()) + "\n"@ + action_description(actions.last())
    }
}

/// The description of a card.
pub open spec fn card_description(c: CardView) -> Seq<char> {
    if c.actions.len() == 0 {
        "Describing "@ + c.name
    } else {
        joined_descriptions(c.actions)
    }
}

impl CardAction {
    /// A line describing the action.
    pub fn describe(&self) -> (r: String)
        ensures
            r@ == action_description(*self),
    {
        match self {
            CardAction::Move(d) => String::from_str("Move ").concat(decimal_string(*d).as_str()).concat(
                " squares",
            ),
            CardAction::Attack { damage, range } => String::from_str("Attack for ").concat(
                decimal_string(*damage).as_str(),
            ).concat(" at range ").concat(decimal_string(*range).as_str()),
            CardAction::Stun { range, duration } => String::from_str("Stun an enemy at ").concat(
                decimal_string(*range).as_str(),
            ).concat(" for ").concat(decimal_string(*duration).as_str()).concat(" turns"),
        }
    }

    /// The targeting rule: moves need a path, attacks and stuns a creature.
    pub fn target(&self) -> (r: Targetable)
        ensures
            r == target_of(*self),
    {
        match self {
            CardAction::Move(d) => Targetable::Path { max_distance: *d },
            CardAction::Attack { damage: _, range } => Targetable::Creature { max_distance: *range },
            CardAction::Stun { range, duration: _ } => Targetable::Creature {
                max_distance: *range,
            },
        }
    }
}

impl Card {
    /// A card with these fields.
    pub fn new(id: String, name: String, actions: Vec<CardAction>, tier: usize) -> (r: Card)
        ensures
            r@ == (CardView { id: id@, name: name@, actions: actions@, tier: tier as nat }),
    {
        Card { id, name, actions, tier }
    }

    /// A copy of this card.
    pub fn duplicate(&self) -> (r: Card)
        ensures
            r@ == self@,
    {
        let mut actions: Vec<CardAction> = Vec::new();
        let mut i: usize = 0;
        while i < self.actions.len()
            invariant
                i <= self.actions@.len(),
                actions@ == self.actions@.subrange(0, i as int),
            decreases self.actions.len() - i,
        {
            actions.push(self.actions[i]);
            proof {
                assert(self.actions@.subrange(0, i + 1) == self.actions@.subrange(0, i as int).push(
                    self.actions@[i as int],
                ));
            }
            i += 1;
        }
        proof {
            assert(self.actions@.subrange(0, self.actions@.len() as int) == self.actions@);
        }
        Card { id: self.id.clone(), name: self.name.clone(), actions, tier: self.tier }
    }

    /// The title shown for the card: `tier - name`.
    pub fn title(&self) -> (r: String)
        ensures
            r@ == decimal(self.tier as nat) + " - "@ + self.name@,
    {
        decimal_string(self.tier).concat(" - ").concat(self.name.as_str())
    }

    /// The description shown for the card: the descriptions of its actions,
    /// one per line, or `Describing name` for a card without actions.
    pub fn description(&self) -> (r: String)
        ensures
            r@ == card_description(self@),
    {
        if self.actions.len() == 0 {
            return String::from_str("Describing ").concat(self.name.as_str());
        }
        let mut text = self.actions[0].describe();
        let mut i: usize = 1;
        while i < self.actions.len()
            invariant
                1 <= i <= self.actions@.len(),
                text@ == joined_descriptions(self.actions@.subrange(0, i as int)),
            decreases self.actions.len() - i,
        {
            let line = self.actions[i].describe();
            proof {
                let s = self.actions@.subrange(0, i + 1);
                assert(s.drop_last() == self.actions@.subrange(0, i as int));
                assert(s.last() == self.actions@[i as int]);
            }
            text = text.concat("\n").concat(line.as_str());
            i += 1;
        }
        proof {
            assert(self.actions@.subrange(0, self.actions@.len() as int) == self.actions@);
        }
        text
    }
}

} // verus!
