//! A perfect solver for Connect Four on the standard 7x6 board.
//!
//! The solver computes, for any legal non-terminal position, the exact
//! game-theoretic score under optimal play by both sides, and can enumerate
//! per-move scores so a caller may select an optimal move.

use vstd::prelude::*;

mod bits;
mod book_generator;
mod errors;
mod game_value;
mod move_sorter;
mod opening_book;
mod position;
mod solver;
mod transposition_table;

pub use bits::popcount;
pub use book_generator::OpeningBookGenerator;
pub use errors::PositionParsingError;
pub use move_sorter::{MoveEntry, MoveSorter};
pub use opening_book::{BookDecodeError, OpeningBook};
pub use position::Position;
pub use solver::Solver;
pub use transposition_table::{TTEntry, TTFlag, TranspositionTable};
