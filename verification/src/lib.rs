//! Client core of a multiplayer snake game played in a character terminal.
//!
//! A remote server owns the game; this library holds what the client decides
//! between two network reads: the static field, the interpretation of the
//! keyboard, the drawing commands of every frame and the turn protocol.

use vstd::prelude::*;

pub mod ansi;
pub mod display;
pub mod game;
pub mod input;
pub mod render;
pub mod sync;

verus! {

/// The configuration of a game as the server sends it once, before the
/// first frame.
#[derive(Clone, Debug)]
pub struct GameConfig {
    /// The index of the player's own snake.
    pub id: usize,
    /// The number of columns of the field.
    pub width: usize,
    /// The number of rows of the field.
    pub height: usize,
    /// The snakes, each from head to tail.
    pub snakes: Vec<Vec<game::Point>>,
    pub food: game::Point,
}

/// The player's direction as it is reported once per turn.
#[derive(Clone, Copy, PartialEq, Eq, Debug, Structural)]
pub struct DirectionMessage {
    pub direction: game::Direction,
}

/// The positions of the next turn as the server sends them.
#[derive(Clone, Debug)]
pub struct TurnMessage {
    /// The index of the player's own snake.
    pub id: usize,
    pub food: game::Point,
    /// The snakes, each from head to tail.
    pub snakes: Vec<Vec<game::Point>>,
}

/// The player's vote on starting before the lobby is full.
#[derive(Clone, Copy, PartialEq, Eq, Debug, Structural)]
pub struct ForceStartMessage {
    pub force_start: bool,
}

} // verus!
