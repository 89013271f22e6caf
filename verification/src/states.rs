//! The states of the game that systems are scheduled by.

use vstd::prelude::*;

verus! {

/// Whether the game runs or is held. World building and the activity of
/// spawners and mobs belong to `InGame`.
#[derive(Clone, Copy, Debug, PartialEq, Eq, Hash, Structural)]
pub enum GameState {
    InGame,
    Paused,
}

impl Default for GameState {
    /// The game starts running.
    fn default() -> (state: GameState)
        ensures
            state == GameState::InGame,
    {
        GameState::InGame
    }
}

} // verus!
