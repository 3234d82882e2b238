use crate::actor::Actor;
use crate::story::{ScenarioState, StateView};
use vstd::prelude::*;

verus! {

/// The top-level screens of the game.
#[derive(Debug, Clone, Copy, PartialEq, Eq, Structural, Hash)]
pub enum AppState {
    Loading,
    MainMenu,
    Overworld,
    Scene,
}

/// The phases of a scene.
#[derive(Debug, Clone, Copy, PartialEq, Eq, Structural, Hash)]
pub enum SceneState {
    /// No scene is running.
    Inactive,
    Setup,
    PlayerTurn,
    EnemyTurn,
    Processing,
    Succeeded,
    Failed,
    Intermission,
}

/// The scene phase in which `actor`'s turn is played.
pub fn scene_for_turn(actor: &Actor) -> (r: SceneState)
    ensures
        r == (if *actor == Actor::Player {
            SceneState::PlayerTurn
        } else {
            SceneState::EnemyTurn
        }),
{
    if actor.is_player() {
        SceneState::PlayerTurn
    } else {
        SceneState::EnemyTurn
    }
}

/// The scene phase a finished scenario leads to; none while it is in progress.
pub fn scene_after(state: &ScenarioState) -> (r: Option<SceneState>)
    ensures
        r == (match state@ {
            StateView::InProgress(_) => None,
            StateView::Success(_) => Some(SceneState::Succeeded),
            StateView::Failure(_) => Some(SceneState::Failed),
        }),
{
    match state {
        ScenarioState::InProgress(_) => None,
        ScenarioState::Success(_) => Some(SceneState::Succeeded),
        ScenarioState::Failure(_) => Some(SceneState::Failed),
    }
}

} // verus!
