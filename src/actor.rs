use vstd::prelude::*;

verus! {

/// A participant in combat.
#[derive(Debug, Clone, Copy, PartialEq, Eq, Structural, Hash, PartialOrd, Ord)]
pub enum Actor {
    Player,
    Enemy(usize),
}

/// Grid coordinate of an actor.
#[derive(Debug, Clone, Copy, PartialEq, Eq, Structural, Hash)]
pub struct ActorPosition(pub usize, pub usize);

/// The total order on actors: the player comes first, enemies follow by index.
pub open spec fn actor_precedes(a: Actor, b: Actor) -> bool {
    match (a, b) {
        (Actor::Player, Actor::Enemy(_)) => true,
        (Actor::Enemy(i), Actor::Enemy(j)) => i < j,
        _ => false,
    }
}

impl Actor {
    /// Strict comparison under the turn order of actors.
    pub fn precedes(&self, other: &Actor) -> (r: bool)
        ensures
            r == actor_precedes(*self, *other),
    {
        match (self, other) {
            (Actor::Player, Actor::Enemy(_)) => true,
            (Actor::Enemy(i), Actor::Enemy(j)) => *i < *j,
            _ => false,
        }
    }

    pub fn is_player(&self) -> (r: bool)
        ensures
            r == (*self == Actor::Player),
    {
        match self {
            Actor::Player => true,
            Actor::Enemy(_) => false,
        }
    }
}

impl ActorPosition {
    pub open spec fn cell(self) -> (usize, usize) {
        (self.0, self.1)
    }
}

} // verus!
