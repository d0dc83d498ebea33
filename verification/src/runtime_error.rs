//! The errors by which the game rejects a request.

use crate::scrabble_base_types::{PlayerID, Position};
use vstd::prelude::*;

verus! {

/// Why a placement that fits on the board is nevertheless refused.
#[derive(Copy, Clone, Debug, PartialEq, Eq, Structural)]
pub enum PlacementFault {
    /// A line of two or more tiles through the placement is not a well-formed
    /// postfix expression.
    InvalidTerms,
    /// The placement forms no line of two or more tiles.
    OnlySingletons,
}

/// Why the game rejects a request. None of these changes the game.
#[derive(Copy, Clone, Debug, PartialEq, Eq)]
pub enum ScrabbleRuntimeError {
    /// No player has this index.
    PlayerIDOutOfBOunds(PlayerID),
    /// The position lies outside the grid.
    PositionOutOfBounds(Position),
    /// The placement breaks a rule of the game.
    InvalidPlacement(PlacementFault),
    /// The bag of the player to move lacks a tile of the placement.
    MissingLetters,
    /// A target cell is occupied or lies outside the grid.
    BlockedSpace,
}

} // verus!
