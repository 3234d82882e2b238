//! Turn-based tactical engine: map generation, turn sequencing, target
//! resolution, a simple enemy policy, goal evaluation and the turn state
//! machine that drives a presentation layer through ordered events.

pub mod actor;
pub mod card;
pub mod enemy_ai;
pub mod engine;
pub mod game_state;
pub mod goals;
pub mod ledger;
pub mod map;
pub mod progression;
pub mod rng;
pub mod setup;
pub mod story;
pub mod targeting;
pub mod text;
pub mod turn;
pub mod wait;
