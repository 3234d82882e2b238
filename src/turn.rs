use crate::actor::{Actor, ActorPosition};
use crate::card::{Card, CardView};
use crate::targeting::Cell;
use vstd::prelude::*;

verus! {

/// An open request to choose target cells for one action of a card.
#[derive(Debug, Clone)]
pub struct TargetSelection {
    pub actor: Actor,
    pub card: Card,
    pub valid_targets: Vec<Cell>,
    pub num_targets_to_select: usize,
    pub action_id: usize,
}

/// The phase of the active actor's turn.
#[derive(Debug, Clone)]
pub enum CurrentTurnProcess {
    /// No turn is under way.
    Idle,
    Thinking(Actor),
    CardActionTriggered(Actor, Card, usize),
    CardTargetsSelected(Actor, Card, Vec<Cell>, usize),
    Done(Actor),
}

/// What the presentation layer is asked to play out, in order.
#[derive(Debug, Clone)]
pub enum AnimateActionsEvents {
    /// Hold for this many milliseconds.
    Wait(u64),
    /// The actor's turn begins.
    Continue(Actor),
    /// Let the player choose among these cells.
    SelectTargets(TargetSelection),
    Move(Actor, ActorPosition),
    /// Attack the cell for this much damage.
    Attack(Actor, ActorPosition, usize),
    /// Stun whoever stands on the cell for this many turns.
    Stun(Actor, ActorPosition, usize),
    /// Set the turn process once what comes before has been played out.
    SetTurnProcess(CurrentTurnProcess),
}

/// A card played by an actor, by identifier.
#[derive(Debug, Clone)]
pub struct CardPlayedEvent {
    pub actor: Actor,
    pub card: String,
}

pub struct SelectionView {
    pub actor: Actor,
    pub card: CardView,
    pub valid_targets: Seq<Cell>,
    pub num_targets_to_select: nat,
    pub action_id: nat,
}

pub enum ProcessView {
    Idle,
    Thinking(Actor),
    CardActionTriggered(Actor, CardView, nat),
    CardTargetsSelected(Actor, CardView, Seq<Cell>, nat),
    Done(Actor),
}

pub enum EventView {
    Wait(nat),
    Continue(Actor),
    SelectTargets(SelectionView),
    Move(Actor, ActorPosition),
    Attack(Actor, ActorPosition, nat),
    Stun(Actor, ActorPosition, nat),
    SetTurnProcess(ProcessView),
}

impl View for TargetSelection {
    type V = SelectionView;

    open spec fn view(&self) -> SelectionView {
        SelectionView {
            actor: self.actor,
            card: self.card@,
            valid_targets: self.valid_targets@,
            num_targets_to_select: self.num_targets_to_select as nat,
            action_id: self.action_id as nat,
        }
    }
}

impl View for CurrentTurnProcess {
    type V = ProcessView;

    open spec fn view(&self) -> ProcessView {
        match self {
            CurrentTurnProcess::Idle => ProcessView::Idle,
            CurrentTurnProcess::Thinking(a) => ProcessView::Thinking(*a),
            CurrentTurnProcess::CardActionTriggered(a, c, i) => ProcessView::CardActionTriggered(
                *a,
                c@,
                *i as nat,
            ),
            CurrentTurnProcess::CardTargetsSelected(a, c, t, i) => ProcessView::CardTargetsSelected(
                *a,
                c@,
                t@,
                *i as nat,
            ),
            CurrentTurnProcess::Done(a) => ProcessView::Done(*a),
        }
    }
}

impl View for AnimateActionsEvents {
    type V = EventView;

    open spec fn view(&self) -> EventView {
        match self {
            AnimateActionsEvents::Wait(ms) => EventView::Wait(*ms as nat),
            AnimateActionsEvents::Continue(a) => EventView::Continue(*a),
            AnimateActionsEvents::SelectTargets(s) => EventView::SelectTargets(s@),
            AnimateActionsEvents::Move(a, p) => EventView::Move(*a, *p),
            AnimateActionsEvents::Attack(a, p, d) => EventView::Attack(*a, *p, *d as nat),
            AnimateActionsEvents::Stun(a, p, d) => EventView::Stun(*a, *p, *d as nat),
            AnimateActionsEvents::SetTurnProcess(p) => EventView::SetTurnProcess(p@),
        }
    }
}

/// The views of a list of events.
pub open spec fn event_views(v: Seq<AnimateActionsEvents>) -> Seq<EventView> {
    v.map_values(|e: AnimateActionsEvents| e@)
}

fn copy_cells(v: &Vec<Cell>) -> (r: Vec<Cell>)
    ensures
        r@ == v@,
{
    let mut r: Vec<Cell> = Vec::new();
    let mut i: usize = 0;
    while i < v.len()
        invariant
            i <= v@.len(),
            r@ == v@.subrange(0, i as int),
        decreases v.len() - i,
    {
        r.push(v[i]);
        proof {
            assert(v@.subrange(0, i + 1) == v@.subrange(0, i as int).push(v@[i as int]));
        }
        i += 1;
    }
    proof {
        assert(v@.subrange(0, v@.len() as int) == v@);
    }
    r
}

impl TargetSelection {
    /// A copy of this selection.
    pub fn duplicate(&self) -> (r: TargetSelection)
        ensures
            r@ == self@,
    {
        TargetSelection {
            actor: self.actor,
            card: self.card.duplicate(),
            valid_targets: copy_cells(&self.valid_targets),
            num_targets_to_select: self.num_targets_to_select,
            action_id: self.action_id,
        }
    }

    /// The player's confirmation of `selected` cells: once enough cells are
    /// chosen (the number asked for, or every valid cell), the action goes on
    /// with them; before that the selection stays open.
    pub fn set_selection(&self, selected: Vec<Cell>) -> (r: Option<CurrentTurnProcess>)
        ensures
            (selected@.len() >= self.num_targets_to_select || selected@.len()
                >= self.valid_targets@.len()) ==> (r matches Some(p) && p@
                == ProcessView::CardTargetsSelected(
                self.actor,
                self.card@,
                selected@,
                self.action_id as nat,
            )),
            !(selected@.len() >= self.num_targets_to_select || selected@.len()
                >= self.valid_targets@.len()) ==> r is None,
    {
        if selected.len() >= self.num_targets_to_select || selected.len()
            >= self.valid_targets.len() {
            Some(
                CurrentTurnProcess::CardTargetsSelected(
                    self.actor,
                    self.card.duplicate(),
                    selected,
                    self.action_id,
                ),
            )
        } else {
            None
        }
    }
}

impl CurrentTurnProcess {
    /// A copy of this process.
    pub fn duplicate(&self) -> (r: CurrentTurnProcess)
        ensures
            r@ == self@,
    {
        match self {
            CurrentTurnProcess::Idle => CurrentTurnProcess::Idle,
            CurrentTurnProcess::Thinking(a) => CurrentTurnProcess::Thinking(*a),
            CurrentTurnProcess::CardActionTriggered(a, c, i) => CurrentTurnProcess::CardActionTriggered(
                *a,
                c.duplicate(),
                *i,
            ),
            CurrentTurnProcess::CardTargetsSelected(a, c, t, i) => CurrentTurnProcess::CardTargetsSelected(
                *a,
                c.duplicate(),
                copy_cells(t),
                *i,
            ),
            CurrentTurnProcess::Done(a) => CurrentTurnProcess::Done(*a),
        }
    }
}

} // verus!
