//! The ways in which building a board or placing a move can fail.

use vstd::prelude::*;

verus! {

/// Why a board could not be built or a move could not be placed.
#[derive(Debug, Clone, Copy, PartialEq, Eq, Structural)]
pub enum BoardError {
    /// The board's dimensions or its multiplier layout are malformed.
    ConfigurationError,
    /// The move needs more width or height than the board has.
    OutOfBounds,
    /// The move forms a run of letters that is not in the dictionary.
    IllegalPlacement,
    /// A letter of the move has no entry in the table of point values.
    UnknownLetter,
    /// The move's score is larger than a `usize` can hold.
    ScoreOverflow,
}

} // verus!
