//! The messages that pass between the rules and what surrounds them: requests
//! coming in, and reports of what happened going out.

use crate::logic::number::Number;
use crate::logic::position_map::{Direction, Position};
use vstd::prelude::*;

verus! {

/// The score has a new value.
#[derive(Debug, Clone, Copy, PartialEq, Eq, Structural)]
pub struct ScoreChanged {
    pub score: i32,
}

/// The best score has a new value.
#[derive(Debug, Clone, Copy, PartialEq, Eq, Structural)]
pub struct BestChanged {
    pub best: i32,
}

/// A new tile is on the board.
#[derive(Debug, Clone, Copy, PartialEq, Eq, Structural)]
pub struct BlockAdded {
    pub id: i32,
    pub number: Number,
    pub position: Position,
}

/// No move is left.
#[derive(Debug, Clone, Copy, PartialEq, Eq, Structural)]
pub struct GameOver;

/// The player asks for a move.
#[derive(Debug, Clone, Copy, PartialEq, Eq, Structural)]
pub struct MoveRequested {
    pub direction: Direction,
}

impl MoveRequested {
    pub fn new(direction: Direction) -> (request: Self)
        ensures
            request.direction == direction,
    {
        Self { direction: direction }
    }
}

/// A move was accepted: each tile that takes part, with the cell it goes to.
#[derive(Debug, PartialEq, Eq)]
pub struct BlocksMoved {
    pub moves: Vec<(i32, Position)>,
}

/// Tiles that left the board.
#[derive(Debug, PartialEq, Eq)]
pub struct BlocksDeleted {
    pub deleted: Vec<i32>,
}

/// The player asks for a new game.
#[derive(Debug, Clone, Copy, PartialEq, Eq, Structural)]
pub struct RestartRequested;

/// A new game has begun on an empty board.
#[derive(Debug, Clone, Copy, PartialEq, Eq, Structural)]
pub struct GameRestarted;

/// The slides of the last accepted move have all been shown.
#[derive(Debug, Clone, Copy, PartialEq, Eq, Structural)]
pub struct AnimationCompleted;

} // verus!
