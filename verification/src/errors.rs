//! Errors reported when parsing Connect Four positions.

use vstd::prelude::*;

verus! {

/// An error that can occur when parsing a Connect Four position from a
/// board string or a move sequence.
#[derive(Debug, Clone, PartialEq, Eq)]
pub enum PositionParsingError {
    /// The board string has an invalid number of board characters.
    InvalidBoardStringLength { actual: usize, expected: usize },
    /// The move sequence contains an invalid (non-numeric) character.
    InvalidCharacter { character: char, index: usize },
    /// The move sequence contains an invalid, out of range column.
    InvalidColumn { column: usize, index: usize },
    /// The move sequence contains an invalid move as a result of a full column.
    InvalidFullColumnMove { column: usize, index: usize },
    /// The move sequence contains an invalid move that results in a winning position.
    InvalidWinningMove { column: usize, index: usize },
}

} // verus!
