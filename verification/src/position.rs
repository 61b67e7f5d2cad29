//! A compact bitboard representation of Connect Four positions.
//!
//! The standard 7-wide, 6-high board is represented in 49 bits: for column
//! `c` and row `r` (bottom row `r = 0`), the cell occupies bit `c * 7 + r`.
//! Bit `c * 7 + 6` is a sentinel row above the top of each column; it is never
//! set in a board mask and keeps shifted patterns from leaking between
//! columns. A position is stored as two words: a mask of all occupied cells,
//! and a mask of the cells held by the side to move.

use vstd::prelude::*;

use crate::bits::{popcount, spec_popcount};
use crate::bits::{lemma_popcount_or_disjoint, lemma_popcount_single, lemma_popcount_subset};
use crate::errors::PositionParsingError;

verus! {

/// A mask with a single bit in the bottom cell of each column.
pub const BOTTOM_ROW_MASK: u64 = 0x40810204081;

/// A mask of every playable cell of the board, excluding the sentinel row.
pub const FULL_BOARD_MASK: u64 = 0xfdfbf7efdfbf;

/// Represents a Connect Four position compactly as a bitboard.
#[derive(Debug, Copy, Clone)]
pub struct Position {
    /// A mask of the current player's tiles.
    pub position: u64,
    /// A mask of all occupied tiles.
    pub mask: u64,
    /// The number of moves taken to reach the position.
    pub moves: usize,
}

impl Position {
    /// The number of columns of the board.
    pub const WIDTH: usize = 7;

    /// The number of rows of the board.
    pub const HEIGHT: usize = 6;

    /// The number of cells of the board.
    pub const BOARD_SIZE: usize = 42;

    /// The index of the central column.
    pub const CENTRE: usize = 3;

    /// The lowest score the solver reports for a non-terminal position.
    pub const MIN_SCORE: i8 = -18;

    /// The highest score the solver reports for a non-terminal position.
    pub const MAX_SCORE: i8 = 18;

    /// A mask with a single bit in the top playable cell of column `col`.
    pub open spec fn spec_top_mask_col(col: u64) -> u64 {
        1u64 << ((5 + col * 7) as u64)
    }

    /// A mask with a single bit in the bottom cell of column `col`.
    pub open spec fn spec_bottom_mask_col(col: u64) -> u64 {
        1u64 << ((col * 7) as u64)
    }

    /// A mask of the six playable cells of column `col`.
    pub open spec fn spec_column_mask(col: u64) -> u64 {
        0x3fu64 << ((col * 7) as u64)
    }

    /// The bitmaps lie within the board: the mover's tiles are a subset of
    /// the occupied tiles, and no occupied tile lies outside the playable
    /// cells (in particular the sentinel row is empty).
    pub open spec fn in_board(self) -> bool {
        &&& self.position & !self.mask == 0
        &&& self.mask & !FULL_BOARD_MASK == 0
    }

    /// Every column is filled from the bottom up: adding one grain to the
    /// bottom of each column carries straight through the filled cells, so
    /// the carry result shares no bit with the mask itself.
    pub open spec fn gravity_consistent(self) -> bool {
        self.mask & ((self.mask + BOTTOM_ROW_MASK) as u64) == 0
    }

    /// A structurally well-formed position: bitmaps within the board, columns
    /// filled bottom-up, and the move counter equal to the number of tiles.
    pub open spec fn wf(self) -> bool {
        &&& self.in_board()
        &&& self.gravity_consistent()
        &&& self.moves == spec_popcount(self.mask)
    }

    /// The landing cells over a raw occupancy mask: for each non-full
    /// column, the single cell a new piece would occupy.
    pub open spec fn spec_possible_words(mask: u64) -> u64 {
        ((mask + BOTTOM_ROW_MASK) as u64) & FULL_BOARD_MASK
    }

    /// The bitmap of landing cells of this position.
    pub open spec fn spec_possible(self) -> u64 {
        Self::spec_possible_words(self.mask)
    }

    /// The non-losing moves over raw player and occupancy masks: the landing
    /// cells that neither ignore an immediate threat of the opponent nor sit
    /// directly beneath one of the opponent's winning cells.
    pub open spec fn spec_non_losing_words(position: u64, mask: u64) -> u64 {
        let possible = Self::spec_possible_words(mask);
        let opponent_wins = Self::spec_winning_cells(position ^ mask, mask);
        let forced = possible & opponent_wins;
        if forced != 0 {
            if forced & ((forced - 1) as u64) != 0 {
                0
            } else {
                forced & !(opponent_wins >> 1)
            }
        } else {
            possible & !(opponent_wins >> 1)
        }
    }

    /// The bitmap of non-losing moves of this position.
    pub open spec fn spec_non_losing(self) -> u64 {
        Self::spec_non_losing_words(self.position, self.mask)
    }

    /// The cells that would complete a four-in-a-row for the player holding
    /// the tiles of `position`, among the cells still free on the board.
    ///
    /// For each of the four directions the shifted copies of `position`
    /// detect three-in-a-row patterns that admit a fourth cell on either
    /// side; vertical alignments can only be completed from above.
    pub open spec fn spec_winning_cells(position: u64, mask: u64) -> u64 {
        let vertical = (position << 1) & (position << 2) & (position << 3);
        let h = (position << 7) & (position << 14);
        let horizontal = (h & (position << 21)) | (h & (position >> 7)) | ((h >> 21) & (position
            << 7)) | ((h >> 21) & (position >> 21));
        let d1 = (position << 6) & (position << 12);
        let diag1 = (d1 & (position << 18)) | (d1 & (position >> 6)) | ((d1 >> 18) & (position
            << 6)) | ((d1 >> 18) & (position >> 18));
        let d2 = (position << 8) & (position << 16);
        let diag2 = (d2 & (position << 24)) | (d2 & (position >> 8)) | ((d2 >> 24) & (position
            << 8)) | ((d2 >> 24) & (position >> 24));
        (vertical | horizontal | diag1 | diag2) & (FULL_BOARD_MASK ^ mask)
    }

    /// The number of playable (non-full) columns with index `c` or higher.
    pub open spec fn spec_playable_columns_from(mask: u64, c: u64) -> nat
        decreases 7 - c,
    {
        if c >= 7 {
            0
        } else {
            (if mask & Self::spec_top_mask_col(c) == 0 {
                1nat
            } else {
                0nat
            }) + Self::spec_playable_columns_from(mask, (c + 1) as u64)
        }
    }

    /// Whether the tiles of `position` contain a completed four-in-a-row.
    pub open spec fn spec_has_alignment(position: u64) -> bool {
        let h = position & (position >> 7);
        let d1 = position & (position >> 6);
        let d2 = position & (position >> 8);
        let v = position & (position >> 1);
        ||| h & (h >> 14) != 0
        ||| d1 & (d1 >> 12) != 0
        ||| d2 & (d2 >> 16) != 0
        ||| v & (v >> 2) != 0
    }

    /// Creates a new `Position` for the initial state of the game.
    pub fn new() -> (r: Position)
        ensures
            r.position == 0,
            r.mask == 0,
            r.get_moves_spec() == 0,
            r.wf(),
    {
        proof {
            assert(0u64 & !0u64 == 0 && 0u64 & !0xfdfbf7efdfbfu64 == 0 && 0u64 & ((0u64
                + 0x40810204081u64) as u64) == 0) by (bit_vector);
        }
        Position { position: 0, mask: 0, moves: 0 }
    }

    /// Whether the given column of this position is playable.
    pub open spec fn spec_playable(self, col: u64) -> bool {
        self.mask & Self::spec_top_mask_col(col) == 0
    }

    /// Whether playing the given column would complete a four-in-a-row for
    /// the current player.
    pub open spec fn spec_winning_move(self, col: u64) -> bool {
        Self::spec_winning_cells(self.position, self.mask) & self.spec_possible()
            & Self::spec_column_mask(col) != 0
    }

    /// The result of applying the move characters of `s`, from index `i`
    /// onwards, to the position `p`: either the final position, or the first
    /// error in the sequence.
    ///
    /// A character outside `'0'..='9'` is rejected as such; a digit outside
    /// `'1'..='7'` names no column; a column must be playable and must not
    /// complete a four-in-a-row, since the solver only accepts non-terminal
    /// positions.
    pub open spec fn spec_apply_moves(p: Position, s: Seq<char>, i: int) -> Result<
        Position,
        PositionParsingError,
    >
        decreases s.len() - i,
    {
        if i < 0 || i >= s.len() {
            Ok(p)
        } else {
            let c = s[i];
            if !('0' <= c && c <= '9') {
                Err(PositionParsingError::InvalidCharacter { character: c, index: i as usize })
            } else {
                let digit = c as u32;
                if digit == 48 || digit > 55 {
                    Err(
                        PositionParsingError::InvalidColumn {
                            column: (digit - 48) as usize,
                            index: i as usize,
                        },
                    )
                } else {
                    let col = (digit - 49) as u64;
                    if !p.spec_playable(col) {
                        Err(
                            PositionParsingError::InvalidFullColumnMove {
                                column: (col + 1) as usize,
                                index: i as usize,
                            },
                        )
                    } else if p.spec_winning_move(col) {
                        Err(
                            PositionParsingError::InvalidWinningMove {
                                column: (col + 1) as usize,
                                index: i as usize,
                            },
                        )
                    } else {
                        Self::spec_apply_moves(p.spec_played(col), s, i + 1)
                    }
                }
            }
        }
    }

    /// Whether a character of a board string describes a cell. Characters
    /// outside this set are ignored by the board parser.
    pub open spec fn spec_board_char(c: char) -> bool {
        c == '.' || c == 'o' || c == 'x' || c == 'O' || c == 'X'
    }

    /// A board character folded to lower case.
    pub open spec fn spec_board_lower(c: char) -> char {
        if c == 'O' {
            'o'
        } else if c == 'X' {
            'x'
        } else {
            c
        }
    }

    /// The cell characters of a board string from index `i` onwards, in
    /// order, folded to lower case, with all other characters dropped.
    pub open spec fn spec_board_chars(s: Seq<char>, i: int) -> Seq<char>
        decreases s.len() - i,
    {
        if i < 0 || i >= s.len() {
            Seq::empty()
        } else if Self::spec_board_char(s[i]) {
            seq![Self::spec_board_lower(s[i])] + Self::spec_board_chars(s, i + 1)
        } else {
            Self::spec_board_chars(s, i + 1)
        }
    }

    /// Folds the cell characters into the two bitmaps and the move counter,
    /// from index `i` onwards. Character `i` of the cell list describes row
    /// `5 - i / 7` of column `i % 7`, which occupies bit `row + col * 7`.
    pub open spec fn spec_fill_board(
        chars: Seq<char>,
        i: int,
        position: u64,
        mask: u64,
        moves: usize,
    ) -> (u64, u64, usize)
        decreases chars.len() - i,
    {
        if i < 0 || i >= chars.len() || i >= 42 || moves >= 42 {
            (position, mask, moves)
        } else if chars[i] == '.' {
            Self::spec_fill_board(chars, i + 1, position, mask, moves)
        } else {
            let row = (5 - i / 7) as u64;
            let col = (i % 7) as u64;
            let bit = 1u64 << ((row + col * 7) as u64);
            let new_position = if chars[i] == 'x' {
                position | bit
            } else {
                position
            };
            Self::spec_fill_board(
                chars,
                i + 1,
                new_position,
                mask | bit,
                (moves + 1) as usize,
            )
        }
    }

    /// The position described by a board string: the cell characters, read
    /// row by row from the top-left to the bottom-right, must number exactly
    /// forty-two. `x` marks a tile of the side to move, `o` one of the
    /// opponent.
    pub open spec fn spec_from_board_string(s: Seq<char>) -> Result<
        Position,
        PositionParsingError,
    > {
        let chars = Self::spec_board_chars(s, 0);
        if chars.len() != 42 {
            Err(
                PositionParsingError::InvalidBoardStringLength {
                    actual: chars.len() as usize,
                    expected: 42,
                },
            )
        } else {
            let filled = Self::spec_fill_board(chars, 0, 0, 0, 0);
            Ok(Position { position: filled.0, mask: filled.1, moves: filled.2 })
        }
    }

    /// Parses a `Position` from a string representation of the board.
    ///
    /// The input string should contain exactly 42 characters from the set
    /// `['.', 'o', 'x']` (upper case accepted), representing the board row by
    /// row from the top-left to the bottom-right. All other characters are
    /// ignored. `x` is treated as the current player, and `o` as the
    /// opponent. A correctly formatted board string is assumed to describe a
    /// reachable game position; the engine's entry points state what they
    /// need of one.
    pub fn from_board_string(board_string: &str) -> (r: Result<Position, PositionParsingError>)
        ensures
            r == Self::spec_from_board_string(board_string@),
            r matches Ok(p) ==> p.in_board(),
    {
        let ghost s = board_string@;

        // Keeps the cell characters, folded to lower case
        let mut chars: Vec<char> = Vec::new();
        let n = board_string.unicode_len();
        let mut i: usize = 0;
        while i < n
            invariant
                i <= n,
                n == s.len(),
                board_string@ == s,
                Self::spec_board_chars(s, 0) == chars@ + Self::spec_board_chars(s, i as int),
            decreases n - i,
        {
            let c = board_string.get_char(i);
            if c == '.' || c == 'o' || c == 'x' || c == 'O' || c == 'X' {
                let lowered = if c == 'O' {
                    'o'
                } else if c == 'X' {
                    'x'
                } else {
                    c
                };
                chars.push(lowered);
                proof {
                    assert(Self::spec_board_chars(s, 0) == chars@ + Self::spec_board_chars(
                        s,
                        i + 1,
                    ));
                }
            }
            i = i + 1;
        }
        proof {
            assert(chars@ + Self::spec_board_chars(s, n as int) =~= chars@);
        }

        // Validates that there is the exact number of characters required
        // for a full board
        if chars.len() != 42 {
            return Err(
                PositionParsingError::InvalidBoardStringLength {
                    actual: chars.len(),
                    expected: 42,
                },
            );
        }

        // Values required to construct a `Position`
        let mut position: u64 = 0;
        let mut mask: u64 = 0;
        let mut moves: usize = 0;

        proof {
            assert(0u64 & !0u64 == 0 && 0u64 & !0xfdfbf7efdfbfu64 == 0) by (bit_vector);
        }

        // Loops through the cell characters to construct the bitboards
        let mut j: usize = 0;
        while j < 42
            invariant
                j <= 42,
                moves <= j,
                chars@.len() == 42,
                position & !mask == 0,
                mask & !FULL_BOARD_MASK == 0,
                Self::spec_fill_board(chars@, 0, 0, 0, 0) == Self::spec_fill_board(
                    chars@,
                    j as int,
                    position,
                    mask,
                    moves,
                ),
            decreases 42 - j,
        {
            let current_char = chars[j];
            if current_char != '.' {
                // Calculates board coordinates from the current index
                let row = 5 - j / 7;
                let col = j % 7;

                // Calculates the corresponding bit in the bitboards
                let bit = 1u64 << (row + col * 7);
                proof {
                    let r = (row) as u64;
                    let c = (col) as u64;
                    let p0 = position;
                    let m0 = mask;
                    assert(r <= 5 && c <= 6 ==> ((1u64 << ((r + c * 7) as u64))
                        & !0xfdfbf7efdfbfu64 == 0) && (p0 & !m0 == 0 ==> (p0 | (1u64 << ((r + c
                        * 7) as u64))) & !(m0 | (1u64 << ((r + c * 7) as u64))) == 0) && (p0 & !m0
                        == 0 ==> p0 & !(m0 | (1u64 << ((r + c * 7) as u64))) == 0) && (m0
                        & !0xfdfbf7efdfbfu64 == 0 && (1u64 << ((r + c * 7) as u64))
                        & !0xfdfbf7efdfbfu64 == 0 ==> (m0 | (1u64 << ((r + c * 7) as u64)))
                        & !0xfdfbf7efdfbfu64 == 0)) by (bit_vector);
                }

                // Sets the calculated bits in the appropriate bitboards
                if current_char == 'x' {
                    position = position | bit;
                }
                mask = mask | bit;
                moves = moves + 1;
            }
            j = j + 1;
        }

        Ok(Position { position, mask, moves })
    }

    /// The position described by a sequence of 1-indexed column digits,
    /// starting from the empty board.
    pub open spec fn spec_from_moves(s: Seq<char>) -> Result<Position, PositionParsingError> {
        Self::spec_apply_moves(Position { position: 0, mask: 0, moves: 0 }, s, 0)
    }

    /// Parses a `Position` from a string of 1-indexed moves.
    ///
    /// The input string should contain a sequence of columns played, indexed
    /// from 1. Each move must name a playable column and must not complete a
    /// four-in-a-row: the engine only accepts non-terminal positions.
    pub fn from_moves(move_sequence: &str) -> (r: Result<Position, PositionParsingError>)
        ensures
            r == Self::spec_from_moves(move_sequence@),
            r matches Ok(p) ==> p.wf(),
    {
        let ghost s = move_sequence@;
        let mut pos = Self::new();
        let n = move_sequence.unicode_len();
        let mut i: usize = 0;

        // Applies the move sequence to the position in order
        while i < n
            invariant
                i <= n,
                n == s.len(),
                move_sequence@ == s,
                pos.wf(),
                Self::spec_from_moves(s) == Self::spec_apply_moves(pos, s, i as int),
            decreases n - i,
        {
            let c = move_sequence.get_char(i);
            if !(c >= '0' && c <= '9') {
                return Err(PositionParsingError::InvalidCharacter { character: c, index: i });
            }
            let digit = c as u32;
            if digit == 48 || digit > 55 {
                return Err(
                    PositionParsingError::InvalidColumn { column: (digit - 48) as usize, index: i },
                );
            }
            let col = (digit - 49) as usize;
            // Validates the move
            if !pos.is_playable(col) {
                return Err(PositionParsingError::InvalidFullColumnMove { column: col + 1, index: i });
            }
            if pos.is_winning_move(col) {
                return Err(PositionParsingError::InvalidWinningMove { column: col + 1, index: i });
            }
            pos.play(col);
            i = i + 1;
        }
        Ok(pos)
    }

    /// The number of moves played, as a specification-level value.
    pub open spec fn get_moves_spec(self) -> usize {
        self.moves
    }

    /// Returns the number of moves played to reach the current position.
    pub fn get_moves(&self) -> (r: usize)
        ensures
            r == self.get_moves_spec(),
    {
        self.moves
    }

    /// Returns a mask for the top playable cell of the given column.
    pub fn top_mask_col(col: usize) -> (r: u64)
        requires
            col < 7,
        ensures
            r == Self::spec_top_mask_col(col as u64),
    {
        1u64 << (5 + col * 7)
    }

    /// Returns a mask for the bottom cell of the given column.
    pub fn bottom_mask_col(col: usize) -> (r: u64)
        requires
            col < 7,
        ensures
            r == Self::spec_bottom_mask_col(col as u64),
    {
        1u64 << (col * 7)
    }

    /// Returns a mask for all six playable cells of the given column.
    pub fn column_mask(col: usize) -> (r: u64)
        requires
            col < 7,
        ensures
            r == Self::spec_column_mask(col as u64),
    {
        0x3fu64 << (col * 7)
    }

    /// Indicates whether a given column is playable, that is, not yet full.
    pub fn is_playable(&self, col: usize) -> (r: bool)
        requires
            col < 7,
        ensures
            r == (self.mask & Self::spec_top_mask_col(col as u64) == 0),
    {
        self.mask & Self::top_mask_col(col) == 0
    }

    /// Returns a mask of the landing cells of all playable columns.
    pub fn possible(&self) -> (r: u64)
        requires
            self.in_board(),
        ensures
            r == self.spec_possible(),
    {
        proof {
            lemma_in_board_bounds(self.position, self.mask);
        }
        (self.mask + BOTTOM_ROW_MASK) & FULL_BOARD_MASK
    }

    /// Returns a mask of the cells where the current player would complete a
    /// four-in-a-row.
    fn winning_positions(&self) -> (r: u64)
        ensures
            r == Self::spec_winning_cells(self.position, self.mask),
    {
        Self::compute_winning_positions(self.position, self.mask)
    }

    /// Returns a mask of the cells where the opponent would complete a
    /// four-in-a-row.
    fn opponent_winning_positions(&self) -> (r: u64)
        ensures
            r == Self::spec_winning_cells(self.position ^ self.mask, self.mask),
    {
        Self::compute_winning_positions(self.position ^ self.mask, self.mask)
    }

    /// Computes a mask of all cells that would complete a four-in-a-row for
    /// the player holding the tiles of `position`.
    fn compute_winning_positions(position: u64, mask: u64) -> (r: u64)
        ensures
            r == Self::spec_winning_cells(position, mask),
    {
        // Vertical alignments complete only from above
        let vertical = (position << 1) & (position << 2) & (position << 3);

        // Horizontal alignments
        let h = (position << 7) & (position << 14);
        let horizontal = (h & (position << 21)) | (h & (position >> 7)) | ((h >> 21) & (position
            << 7)) | ((h >> 21) & (position >> 21));

        // Diagonal alignments rising to the left
        let d1 = (position << 6) & (position << 12);
        let diag1 = (d1 & (position << 18)) | (d1 & (position >> 6)) | ((d1 >> 18) & (position
            << 6)) | ((d1 >> 18) & (position >> 18));

        // Diagonal alignments rising to the right
        let d2 = (position << 8) & (position << 16);
        let diag2 = (d2 & (position << 24)) | (d2 & (position >> 8)) | ((d2 >> 24) & (position
            << 8)) | ((d2 >> 24) & (position >> 24));

        (vertical | horizontal | diag1 | diag2) & (FULL_BOARD_MASK ^ mask)
    }

    /// The landing cell of the given column: the single bit where a piece
    /// played there would come to rest.
    pub open spec fn spec_landing_cell(self, col: u64) -> u64 {
        self.spec_possible() & Self::spec_column_mask(col)
    }

    /// The position after the current player drops a piece in `col`: the two
    /// player masks swap roles and the landing cell of the column fills.
    pub open spec fn spec_played(self, col: u64) -> Position {
        Position {
            position: self.position ^ self.mask,
            mask: self.mask | self.spec_landing_cell(col),
            moves: (self.moves + 1) as usize,
        }
    }

    /// Plays a move in the given column, which must be playable.
    pub fn play(&mut self, col: usize)
        requires
            col < 7,
            old(self).wf(),
            old(self).mask & Self::spec_top_mask_col(col as u64) == 0,
        ensures
            *final(self) == old(self).spec_played(col as u64),
            final(self).position == old(self).position ^ old(self).mask,
            final(self).mask == old(self).mask | old(self).spec_landing_cell(col as u64),
            final(self).moves == old(self).moves + 1,
            final(self).wf(),
    {
        proof {
            lemma_in_board_bounds(self.position, self.mask);
            lemma_play_step(self.position, self.mask, col as u64);
            let lb = self.spec_landing_cell(col as u64);
            lemma_popcount_single(lb);
            lemma_popcount_or_disjoint(self.mask, lb);
            lemma_moves_bound(*self);
        }
        // Switches the bits of the current and opponent player
        self.position = self.position ^ self.mask;

        // Adds an extra mask bit to the played column
        self.mask = self.mask | (self.mask + Self::bottom_mask_col(col));

        self.moves = self.moves + 1;
    }

    /// A bitmap with the columns reflected around the centre column.
    pub open spec fn spec_mirror(x: u64) -> u64 {
        ((x & Self::spec_column_mask(0)) << 42) | ((x & Self::spec_column_mask(1)) << 28) | ((x
            & Self::spec_column_mask(2)) << 14) | (x & Self::spec_column_mask(3)) | ((x
            & Self::spec_column_mask(4)) >> 14) | ((x & Self::spec_column_mask(5)) >> 28) | ((x
            & Self::spec_column_mask(6)) >> 42)
    }

    /// The position reflected around the centre column.
    pub open spec fn spec_mirrored(self) -> Position {
        Position {
            position: Self::spec_mirror(self.position),
            mask: Self::spec_mirror(self.mask),
            moves: self.moves,
        }
    }

    /// The canonical key of the position: the smaller of the key of the
    /// position itself and the key of its mirror image, so that horizontally
    /// symmetric positions share one identifier.
    pub open spec fn spec_key(self) -> u64 {
        let key = (self.position + self.mask) as u64;
        let mirrored_key = (Self::spec_mirror(self.position) + Self::spec_mirror(
            self.mask,
        )) as u64;
        if mirrored_key < key {
            mirrored_key
        } else {
            key
        }
    }

    /// Returns the unique key for the current position.
    ///
    /// The key is shared by each pair of horizontally symmetric positions, as
    /// those positions always have the same solution.
    pub fn get_key(&self) -> (r: u64)
        requires
            self.in_board(),
        ensures
            r == self.spec_key(),
    {
        proof {
            lemma_mirror_pair(self.position, self.mask);
            lemma_in_board_bounds(self.position, self.mask);
            lemma_in_board_bounds(
                Self::spec_mirror(self.position),
                Self::spec_mirror(self.mask),
            );
        }
        // The standard key for the position
        let key = self.position + self.mask;

        // The key of the mirrored position
        let (mirrored_pos, mirrored_mask) = self.get_mirrored_bitmasks();
        let mirrored_key = mirrored_pos + mirrored_mask;

        // The minimum of the two keys is shared with the mirrored position
        if mirrored_key < key {
            mirrored_key
        } else {
            key
        }
    }

    /// Returns the key of the position's mirror image: the sum of the two
    /// bitmaps with their columns reflected. The canonical key of the
    /// position is the smaller of this and the plain key.
    pub fn get_mirrored_key(&self) -> (r: u64)
        requires
            self.in_board(),
        ensures
            r == ((Self::spec_mirror(self.position) + Self::spec_mirror(self.mask)) as u64),
    {
        proof {
            lemma_mirror_pair(self.position, self.mask);
            lemma_in_board_bounds(
                Self::spec_mirror(self.position),
                Self::spec_mirror(self.mask),
            );
        }
        let (mirrored_pos, mirrored_mask) = self.get_mirrored_bitmasks();
        mirrored_pos + mirrored_mask
    }

    /// Returns both of the position's bitmaps, mirrored horizontally.
    fn get_mirrored_bitmasks(&self) -> (r: (u64, u64))
        ensures
            r.0 == Self::spec_mirror(self.position),
            r.1 == Self::spec_mirror(self.mask),
    {
        (Self::mirror_columns(self.position), Self::mirror_columns(self.mask))
    }

    /// Reflects the columns of a bitmap around the centre column.
    fn mirror_columns(x: u64) -> (r: u64)
        ensures
            r == Self::spec_mirror(x),
    {
        // Swaps the outer, second and third column pairs; the centre column
        // stays in place
        ((x & Self::column_mask(0)) << 42) | ((x & Self::column_mask(1)) << 28) | ((x
            & Self::column_mask(2)) << 14) | (x & Self::column_mask(3)) | ((x & Self::column_mask(
            4,
        )) >> 14) | ((x & Self::column_mask(5)) >> 28) | ((x & Self::column_mask(6)) >> 42)
    }

    /// Indicates whether the current player wins by playing the given column.
    pub fn is_winning_move(&self, col: usize) -> (r: bool)
        requires
            col < 7,
            self.in_board(),
        ensures
            r == (Self::spec_winning_cells(self.position, self.mask) & self.spec_possible()
                & Self::spec_column_mask(col as u64) != 0),
    {
        self.winning_positions() & self.possible() & Self::column_mask(col) > 0
    }

    /// Indicates whether the current player can win with their next move.
    pub fn can_win_next(&self) -> (r: bool)
        requires
            self.in_board(),
        ensures
            r == (Self::spec_winning_cells(self.position, self.mask) & self.spec_possible() != 0),
    {
        self.winning_positions() & self.possible() > 0
    }

    /// Returns a mask of the possible moves that do not lose immediately:
    /// the landing cells that answer any immediate threat of the opponent
    /// and avoid the cells directly beneath an opponent's winning cell.
    ///
    /// Returns `0` when the opponent has two immediate threats at once, as
    /// no single move can stop both.
    pub fn possible_non_losing_moves(&self) -> (r: u64)
        requires
            self.in_board(),
        ensures
            r == self.spec_non_losing(),
            r & !self.spec_possible() == 0,
    {
        proof {
            lemma_non_losing_subset(self.position, self.mask);
        }
        let mut possible = self.possible();
        let opponent_wins = self.opponent_winning_positions();

        // Checks if there are any forced moves to avoid the opponent winning
        let forced_moves = possible & opponent_wins;
        if forced_moves > 0 {
            if forced_moves & (forced_moves - 1) > 0 {
                // If the opponent has two winning moves then they cannot be stopped
                return 0;
            } else {
                possible = forced_moves;
            }
        }
        // Avoid playing below any of the opponent's winning positions
        possible & !(opponent_wins >> 1)
    }

    /// Scores a candidate move by counting the winning cells the mover would
    /// have after playing it.
    pub fn score_move(&self, move_bit: u64) -> (r: u8)
        ensures
            r == spec_popcount(Self::spec_winning_cells(self.position | move_bit, self.mask)),
    {
        popcount(Self::compute_winning_positions(self.position | move_bit, self.mask)) as u8
    }

    /// Whether either player of this position has a completed four-in-a-row.
    pub open spec fn spec_won(self) -> bool {
        Self::spec_has_alignment(self.position) || Self::spec_has_alignment(
            self.position ^ self.mask,
        )
    }

    /// Indicates whether either player has completed a four-in-a-row.
    pub fn is_won_position(&self) -> (r: bool)
        ensures
            r == (Self::spec_has_alignment(self.position) || Self::spec_has_alignment(
                self.position ^ self.mask,
            )),
    {
        Self::compute_won_position(self.position) || Self::compute_won_position(
            self.position ^ self.mask,
        )
    }

    /// Computes whether the given tile mask contains a four-in-a-row.
    fn compute_won_position(position: u64) -> (r: bool)
        ensures
            r == Self::spec_has_alignment(position),
    {
        // Horizontal alignment
        let m = position & (position >> 7);
        if m & (m >> 14) > 0 {
            return true;
        }
        // Diagonal alignment rising to the left
        let m = position & (position >> 6);
        if m & (m >> 12) > 0 {
            return true;
        }
        // Diagonal alignment rising to the right
        let m = position & (position >> 8);
        if m & (m >> 16) > 0 {
            return true;
        }
        // Vertical alignment
        let m = position & (position >> 1);
        if m & (m >> 2) > 0 {
            return true;
        }
        false
    }
}

/// What dropping one piece does to the occupancy mask, at the bit level:
/// the update `mask | (mask + bottom_of_col)` adds exactly the landing cell
/// of the column, a fresh single bit, and every structural property of the
/// mask is preserved.
proof fn lemma_play_step(position: u64, mask: u64, col: u64)
    by (bit_vector)
    requires
        col < 7,
        position & !mask == 0,
        mask & !0xfdfbf7efdfbfu64 == 0,
        mask & ((mask + 0x40810204081u64) as u64) == 0,
        mask & (1u64 << ((5 + col * 7) as u64)) == 0,
    ensures
        ({
            let lb = ((mask + 0x40810204081u64) as u64) & 0xfdfbf7efdfbf & (0x3fu64 << ((col
                * 7) as u64));
            let new_mask = mask | ((mask + (1u64 << ((col * 7) as u64))) as u64);
            &&& new_mask == mask | lb
            &&& lb != 0
            &&& mask & lb == 0
            &&& lb & ((lb - 1) as u64) == 0
            &&& mask + (1u64 << ((col * 7) as u64)) < 0x2000000000000
            &&& new_mask & !0xfdfbf7efdfbfu64 == 0
            &&& new_mask & ((new_mask + 0x40810204081u64) as u64) == 0
            &&& (position ^ mask) & !new_mask == 0
        }),
{
}

/// A well-formed position has at most as many moves as the board has cells.
pub proof fn lemma_moves_bound(p: Position)
    requires
        p.wf(),
    ensures
        p.moves <= 42,
        spec_popcount(p.mask) <= 42,
{
    lemma_popcount_subset(p.mask, FULL_BOARD_MASK);
    lemma_popcount_board_mask();
}

/// Shifting a small word left does not change its number of set bits.
proof fn lemma_popcount_shl(x: u64, n: u64)
    requires
        x < 0x10000,
        n <= 48,
    ensures
        spec_popcount((x << n) as u64) == spec_popcount(x),
    decreases n,
{
    if n == 0 {
        assert((x << 0u64) as u64 == x) by (bit_vector);
    } else {
        lemma_popcount_shl(x, (n - 1) as u64);
        let y = (x << ((n - 1) as u64)) as u64;
        assert(x < 0x10000 && 1 <= n && n <= 48 ==> (x << n) as u64 == (2 * y) as u64 && y
            < 0x8000000000000000 && ((2 * y) as u64) & 1 == 0) by (bit_vector)
            requires
                y == (x << ((n - 1) as u64)) as u64,
        ;
        if y != 0 {
            assert(spec_popcount((2 * y) as u64) == spec_popcount(y));
        }
    }
}

/// The board mask has exactly six set bits in each of its seven columns.
proof fn lemma_popcount_board_mask()
    ensures
        spec_popcount(FULL_BOARD_MASK) == 42,
{
    assert(0x3fu64 & 1 == 1 && 0x1fu64 & 1 == 1 && 0xfu64 & 1 == 1 && 0x7u64 & 1 == 1 && 0x3u64 & 1
        == 1 && 1u64 & 1 == 1) by (bit_vector);
    reveal_with_fuel(spec_popcount, 8);
    assert(spec_popcount(0x3f) == 6);
    lemma_popcount_shl(0x3f, 7);
    lemma_popcount_shl(0x3f, 14);
    lemma_popcount_shl(0x3f, 21);
    lemma_popcount_shl(0x3f, 28);
    lemma_popcount_shl(0x3f, 35);
    lemma_popcount_shl(0x3f, 42);
    assert((0x3fu64 << 7u64) as u64 == 0x1f80 && (0x3fu64 << 14u64) as u64 == 0xfc000 && (0x3fu64
        << 21u64) as u64 == 0x7e00000 && (0x3fu64 << 28u64) as u64 == 0x3f0000000 && (0x3fu64
        << 35u64) as u64 == 0x1f800000000 && (0x3fu64 << 42u64) as u64 == 0xfc0000000000)
        by (bit_vector);
    assert(0x3fu64 & 0x1f80 == 0 && 0x3fu64 | 0x1f80 == 0x1fbf && 0x1fbfu64 & 0xfc000 == 0
        && 0x1fbfu64 | 0xfc000 == 0xfdfbf && 0xfdfbfu64 & 0x7e00000 == 0 && 0xfdfbfu64 | 0x7e00000
        == 0x7efdfbf && 0x7efdfbfu64 & 0x3f0000000 == 0 && 0x7efdfbfu64 | 0x3f0000000
        == 0x3f7efdfbf && 0x3f7efdfbfu64 & 0x1f800000000 == 0 && 0x3f7efdfbfu64 | 0x1f800000000
        == 0x1fbf7efdfbf && 0x1fbf7efdfbfu64 & 0xfc0000000000 == 0 && 0x1fbf7efdfbfu64
        | 0xfc0000000000 == 0xfdfbf7efdfbf) by (bit_vector);
    lemma_popcount_or_disjoint(0x3f, 0x1f80);
    lemma_popcount_or_disjoint(0x1fbf, 0xfc000);
    lemma_popcount_or_disjoint(0xfdfbf, 0x7e00000);
    lemma_popcount_or_disjoint(0x7efdfbf, 0x3f0000000);
    lemma_popcount_or_disjoint(0x3f7efdfbf, 0x1f800000000);
    lemma_popcount_or_disjoint(0x1fbf7efdfbf, 0xfc0000000000);
}

impl Default for Position {
    /// The initial state of the game: an empty board.
    fn default() -> (r: Position)
        ensures
            r.position == 0,
            r.mask == 0,
            r.get_moves_spec() == 0,
            r.wf(),
    {
        Position::new()
    }
}

/// The non-losing moves are a subset of the possible moves: the pruning
/// only ever removes landing cells, it never invents one.
pub proof fn lemma_non_losing_subset(position: u64, mask: u64)
    by (bit_vector)
    ensures
        Position::spec_non_losing_words(position, mask) & !Position::spec_possible_words(mask)
            == 0,
{
}

/// The non-losing moves of a position are a subset of its possible moves.
pub proof fn lemma_non_losing_moves_are_possible(p: Position)
    ensures
        p.spec_non_losing() & !p.spec_possible() == 0,
{
    lemma_non_losing_subset(p.position, p.mask);
}

/// Each column of index `c` or higher contributes exactly one landing cell
/// to the possible-move mask when it is playable and none when it is full.
proof fn lemma_possible_count_from(mask: u64, c: u64)
    requires
        mask & !FULL_BOARD_MASK == 0,
        mask & ((mask + BOTTOM_ROW_MASK) as u64) == 0,
        c <= 7,
    ensures
        spec_popcount(Position::spec_possible_words(mask) & (!0u64 << ((7 * c) as u64)))
            == Position::spec_playable_columns_from(mask, c),
    decreases 7 - c,
{
    if c == 7 {
        assert(mask & !0xfdfbf7efdfbfu64 == 0 ==> Position::spec_possible_words(mask) & (!0u64
            << 49u64) == 0) by (bit_vector);
    } else {
        lemma_possible_count_from(mask, (c + 1) as u64);
        let poss = Position::spec_possible_words(mask);
        let part = poss & Position::spec_column_mask(c);
        let rest = poss & (!0u64 << ((7 * (c + 1)) as u64));
        assert(c < 7 && mask & !0xfdfbf7efdfbfu64 == 0 && mask & ((mask
            + 0x40810204081u64) as u64) == 0 ==> (poss & (!0u64 << ((7 * c) as u64))) == (part
            | rest) && part & rest == 0 && (mask & Position::spec_top_mask_col(c) == 0 ==> part
            != 0 && part & ((part - 1) as u64) == 0) && (mask & Position::spec_top_mask_col(c) != 0
            ==> part == 0)) by (bit_vector)
            requires
                poss == Position::spec_possible_words(mask),
                part == poss & Position::spec_column_mask(c),
                rest == poss & (!0u64 << ((7 * (c + 1)) as u64)),
        ;
        if mask & Position::spec_top_mask_col(c) == 0 {
            lemma_popcount_single(part);
        }
        lemma_popcount_or_disjoint(part, rest);
    }
}

/// Counting the landing cells: the possible-move mask holds exactly one set
/// bit for every non-full column of the board.
pub proof fn lemma_possible_counts_playable(p: Position)
    requires
        p.in_board(),
        p.gravity_consistent(),
    ensures
        spec_popcount(p.spec_possible()) == Position::spec_playable_columns_from(p.mask, 0),
{
    lemma_possible_count_from(p.mask, 0);
    let mask = p.mask;
    assert(Position::spec_possible_words(mask) & (!0u64 << ((7 * 0u64) as u64))
        == Position::spec_possible_words(mask)) by (bit_vector);
}

/// A column contributes a landing cell to the possible-move mask exactly
/// when it is not yet full.
pub proof fn lemma_possible_column_playable(p: Position, col: u64)
    requires
        p.in_board(),
        p.gravity_consistent(),
        col < 7,
    ensures
        (p.spec_possible() & Position::spec_column_mask(col) != 0) <==> p.spec_playable(col),
{
    let mask = p.mask;
    assert(mask & !0xfdfbf7efdfbfu64 == 0 && mask & ((mask + 0x40810204081u64) as u64) == 0 && col
        < 7 ==> ((Position::spec_possible_words(mask) & Position::spec_column_mask(col) != 0)
        <==> mask & Position::spec_top_mask_col(col) == 0)) by (bit_vector);
}

/// The value of one column of a bitmap, moved down to the low six bits.
pub open spec fn spec_column_value(x: u64, c: u64) -> u64 {
    (x >> ((7 * c) as u64)) & 0x3f
}

/// The set bits of an in-board bitmap, column by column: the total count is
/// the sum of the per-column counts.
proof fn lemma_popcount_columns(m: u64)
    requires
        m & !FULL_BOARD_MASK == 0,
    ensures
        spec_popcount(m) == spec_popcount(spec_column_value(m, 0)) + spec_popcount(
            spec_column_value(m, 1),
        ) + spec_popcount(spec_column_value(m, 2)) + spec_popcount(spec_column_value(m, 3))
            + spec_popcount(spec_column_value(m, 4)) + spec_popcount(spec_column_value(m, 5))
            + spec_popcount(spec_column_value(m, 6)),
{
    let p0 = m & 0x3fu64;
    let p1 = m & (0x3fu64 << 7);
    let p2 = m & (0x3fu64 << 14);
    let p3 = m & (0x3fu64 << 21);
    let p4 = m & (0x3fu64 << 28);
    let p5 = m & (0x3fu64 << 35);
    let p6 = m & (0x3fu64 << 42);
    assert(m & !0xfdfbf7efdfbfu64 == 0 ==> p0 == (spec_column_value(m, 0) << 0u64) as u64 && p1
        == (spec_column_value(m, 1) << 7u64) as u64 && p2 == (spec_column_value(m, 2) << 14u64) as u64
        && p3 == (spec_column_value(m, 3) << 21u64) as u64 && p4 == (spec_column_value(m, 4)
        << 28u64) as u64 && p5 == (spec_column_value(m, 5) << 35u64) as u64 && p6 == (
    spec_column_value(m, 6) << 42u64) as u64 && spec_column_value(m, 0) < 0x40
        && spec_column_value(m, 1) < 0x40 && spec_column_value(m, 2) < 0x40 && spec_column_value(
        m,
        3,
    ) < 0x40 && spec_column_value(m, 4) < 0x40 && spec_column_value(m, 5) < 0x40
        && spec_column_value(m, 6) < 0x40 && m == (((((p0 | p1) | p2) | p3) | p4) | p5) | p6 && p0
        & p1 == 0 && (p0 | p1) & p2 == 0 && ((p0 | p1) | p2) & p3 == 0 && (((p0 | p1) | p2) | p3)
        & p4 == 0 && ((((p0 | p1) | p2) | p3) | p4) & p5 == 0 && (((((p0 | p1) | p2) | p3) | p4)
        | p5) & p6 == 0) by (bit_vector)
        requires
            p0 == m & 0x3fu64,
            p1 == m & (0x3fu64 << 7),
            p2 == m & (0x3fu64 << 14),
            p3 == m & (0x3fu64 << 21),
            p4 == m & (0x3fu64 << 28),
            p5 == m & (0x3fu64 << 35),
            p6 == m & (0x3fu64 << 42),
    ;
    lemma_popcount_or_disjoint(p0, p1);
    lemma_popcount_or_disjoint(p0 | p1, p2);
    lemma_popcount_or_disjoint((p0 | p1) | p2, p3);
    lemma_popcount_or_disjoint(((p0 | p1) | p2) | p3, p4);
    lemma_popcount_or_disjoint((((p0 | p1) | p2) | p3) | p4, p5);
    lemma_popcount_or_disjoint(((((p0 | p1) | p2) | p3) | p4) | p5, p6);
    lemma_popcount_shl(spec_column_value(m, 0), 0);
    lemma_popcount_shl(spec_column_value(m, 1), 7);
    lemma_popcount_shl(spec_column_value(m, 2), 14);
    lemma_popcount_shl(spec_column_value(m, 3), 21);
    lemma_popcount_shl(spec_column_value(m, 4), 28);
    lemma_popcount_shl(spec_column_value(m, 5), 35);
    lemma_popcount_shl(spec_column_value(m, 6), 42);
}

/// Each column of a mirrored bitmap holds the value of the opposite column
/// of the bitmap itself.
proof fn lemma_mirror_column_values(x: u64)
    by (bit_vector)
    ensures
        spec_column_value(Position::spec_mirror(x), 0) == spec_column_value(x, 6),
        spec_column_value(Position::spec_mirror(x), 1) == spec_column_value(x, 5),
        spec_column_value(Position::spec_mirror(x), 2) == spec_column_value(x, 4),
        spec_column_value(Position::spec_mirror(x), 3) == spec_column_value(x, 3),
        spec_column_value(Position::spec_mirror(x), 4) == spec_column_value(x, 2),
        spec_column_value(Position::spec_mirror(x), 5) == spec_column_value(x, 1),
        spec_column_value(Position::spec_mirror(x), 6) == spec_column_value(x, 0),
{
}

/// The mirror image of a well-formed position is itself well-formed, counts
/// the same number of moves, and carries the same canonical key.
pub proof fn lemma_mirrored_preserves_wf(p: Position)
    requires
        p.wf(),
    ensures
        p.spec_mirrored().wf(),
        p.spec_mirrored().get_moves_spec() == p.get_moves_spec(),
        p.spec_mirrored().spec_key() == p.spec_key(),
{
    lemma_mirror_pair(p.position, p.mask);
    lemma_key_canonicity(p);
    lemma_popcount_columns(p.mask);
    lemma_popcount_columns(Position::spec_mirror(p.mask));
    lemma_mirror_column_values(p.mask);
}

/// The height of one column as its slice of a key encodes it: within each
/// column a key holds the column's occupancy plus the mover's tiles, which
/// lands in a band of values that depends only on the height.
pub open spec fn spec_column_height_of_key(v: u64) -> nat {
    if v == 0 {
        0
    } else if v <= 2 {
        1
    } else if v <= 6 {
        2
    } else if v <= 14 {
        3
    } else if v <= 30 {
        4
    } else if v <= 62 {
        5
    } else {
        6
    }
}

/// The number of pieces a position key encodes: the sum of the heights its
/// seven column slices spell out.
pub open spec fn spec_plies_of_key(k: u64) -> nat {
    spec_column_height_of_key(k & 0x7f) + spec_column_height_of_key((k >> 7) & 0x7f)
        + spec_column_height_of_key((k >> 14) & 0x7f) + spec_column_height_of_key((k >> 21) & 0x7f)
        + spec_column_height_of_key((k >> 28) & 0x7f) + spec_column_height_of_key((k >> 35) & 0x7f)
        + spec_column_height_of_key((k >> 42) & 0x7f)
}

/// Reads the height a column slice of a key encodes.
fn column_height_of_key(v: u64) -> (r: usize)
    ensures
        r == spec_column_height_of_key(v),
        r <= 6,
{
    if v == 0 {
        0
    } else if v <= 2 {
        1
    } else if v <= 6 {
        2
    } else if v <= 14 {
        3
    } else if v <= 30 {
        4
    } else if v <= 62 {
        5
    } else {
        6
    }
}

/// Reads the number of pieces a position key encodes: at most one piece per
/// cell of the board.
pub fn key_plies(key: u64) -> (r: usize)
    ensures
        r == spec_plies_of_key(key),
        r <= 42,
{
    column_height_of_key(key & 0x7f) + column_height_of_key((key >> 7) & 0x7f)
        + column_height_of_key((key >> 14) & 0x7f) + column_height_of_key((key >> 21) & 0x7f)
        + column_height_of_key((key >> 28) & 0x7f) + column_height_of_key((key >> 35) & 0x7f)
        + column_height_of_key((key >> 42) & 0x7f)
}

/// One column of the key of an in-board, gravity-consistent pair of bitmaps
/// lands in the value band of the column's height: a column holding a full
/// prefix of `h` pieces contributes between `2^h - 1` and `2^(h+1) - 2`.
proof fn lemma_key_column_band(position: u64, mask: u64, c: u64)
    by (bit_vector)
    requires
        c < 7,
        position & !mask == 0,
        mask & !0xfdfbf7efdfbfu64 == 0,
        mask & ((mask + 0x40810204081u64) as u64) == 0,
    ensures
        ({
            let kc = (((position + mask) as u64) >> ((7 * c) as u64)) & 0x7f;
            let mc = (mask >> ((7 * c) as u64)) & 0x3f;
            let pc = (position >> ((7 * c) as u64)) & 0x3f;
            &&& (mc == 0 ==> kc == 0)
            &&& (mc == 1 ==> 1 <= kc <= 2)
            &&& (mc == 3 ==> 3 <= kc <= 6)
            &&& (mc == 7 ==> 7 <= kc <= 14)
            &&& (mc == 15 ==> 15 <= kc <= 30)
            &&& (mc == 31 ==> 31 <= kc <= 62)
            &&& (mc == 63 ==> 63 <= kc <= 126)
            &&& (mc == 0 || mc == 1 || mc == 3 || mc == 7 || mc == 15 || mc == 31 || mc == 63)
            &&& kc == pc + mc
        }),
{
}

/// The key of an in-board, gravity-consistent pair of bitmaps encodes the
/// number of set occupancy bits, column band by column band.
proof fn lemma_key_sum_counts_pieces(position: u64, mask: u64)
    requires
        position & !mask == 0,
        mask & !FULL_BOARD_MASK == 0,
        mask & ((mask + BOTTOM_ROW_MASK) as u64) == 0,
    ensures
        spec_plies_of_key(((position + mask) as u64)) == spec_popcount(mask),
{
    lemma_key_column_band(position, mask, 0);
    lemma_key_column_band(position, mask, 1);
    lemma_key_column_band(position, mask, 2);
    lemma_key_column_band(position, mask, 3);
    lemma_key_column_band(position, mask, 4);
    lemma_key_column_band(position, mask, 5);
    lemma_key_column_band(position, mask, 6);
    lemma_popcount_columns(mask);
    assert(0x3fu64 & 1 == 1 && 0x1fu64 & 1 == 1 && 0xfu64 & 1 == 1 && 0x7u64 & 1 == 1 && 0x3u64 & 1
        == 1 && 1u64 & 1 == 1) by (bit_vector);
    reveal_with_fuel(spec_popcount, 8);
    assert(spec_popcount(0) == 0 && spec_popcount(1) == 1 && spec_popcount(3) == 2 && spec_popcount(
        7,
    ) == 3 && spec_popcount(15) == 4 && spec_popcount(31) == 5 && spec_popcount(63) == 6);
    let k = (position + mask) as u64;
    assert(k & 0x7f == (k >> (7 * 0u64) as u64) & 0x7f) by (bit_vector);
    assert(forall|c: u64|
        c < 7 ==> #[trigger] spec_column_value(mask, c) == (mask >> ((7 * c) as u64)) & 0x3f);
}

/// The bitmap sum is injective on well-formed boards: two in-board,
/// gravity-consistent pairs with the same sum are the same pair.
proof fn lemma_key_sum_injective(p1: u64, m1: u64, p2: u64, m2: u64)
    requires
        p1 & !m1 == 0,
        m1 & !FULL_BOARD_MASK == 0,
        m1 & ((m1 + BOTTOM_ROW_MASK) as u64) == 0,
        p2 & !m2 == 0,
        m2 & !FULL_BOARD_MASK == 0,
        m2 & ((m2 + BOTTOM_ROW_MASK) as u64) == 0,
        ((p1 + m1) as u64) == ((p2 + m2) as u64),
    ensures
        p1 == p2,
        m1 == m2,
{
    lemma_key_column_band(p1, m1, 0);
    lemma_key_column_band(p1, m1, 1);
    lemma_key_column_band(p1, m1, 2);
    lemma_key_column_band(p1, m1, 3);
    lemma_key_column_band(p1, m1, 4);
    lemma_key_column_band(p1, m1, 5);
    lemma_key_column_band(p1, m1, 6);
    lemma_key_column_band(p2, m2, 0);
    lemma_key_column_band(p2, m2, 1);
    lemma_key_column_band(p2, m2, 2);
    lemma_key_column_band(p2, m2, 3);
    lemma_key_column_band(p2, m2, 4);
    lemma_key_column_band(p2, m2, 5);
    lemma_key_column_band(p2, m2, 6);
    lemma_in_board_slices_determine(m1, m2);
    assert(p1 & !0xfdfbf7efdfbfu64 == 0 && p2 & !0xfdfbf7efdfbfu64 == 0) by (bit_vector)
        requires
            p1 & !m1 == 0,
            m1 & !0xfdfbf7efdfbfu64 == 0,
            p2 & !m2 == 0,
            m2 & !0xfdfbf7efdfbfu64 == 0,
    ;
    lemma_in_board_slices_determine(p1, p2);
}

/// Two bitmaps within the board that agree on every column slice are equal.
proof fn lemma_in_board_slices_determine(x: u64, y: u64)
    by (bit_vector)
    requires
        x & !0xfdfbf7efdfbfu64 == 0,
        y & !0xfdfbf7efdfbfu64 == 0,
        (x >> 0u64) & 0x3f == (y >> 0u64) & 0x3f,
        (x >> 7u64) & 0x3f == (y >> 7u64) & 0x3f,
        (x >> 14u64) & 0x3f == (y >> 14u64) & 0x3f,
        (x >> 21u64) & 0x3f == (y >> 21u64) & 0x3f,
        (x >> 28u64) & 0x3f == (y >> 28u64) & 0x3f,
        (x >> 35u64) & 0x3f == (y >> 35u64) & 0x3f,
        (x >> 42u64) & 0x3f == (y >> 42u64) & 0x3f,
    ensures
        x == y,
{
}

/// A canonical key identifies a position up to its mirror image: two
/// well-formed positions with the same canonical key are equal or mirror
/// images of one another.
pub proof fn lemma_canonical_key_identifies(p: Position, q: Position)
    requires
        p.wf(),
        q.wf(),
        p.spec_key() == q.spec_key(),
    ensures
        q == p || q == p.spec_mirrored(),
{
    lemma_mirror_pair(p.position, p.mask);
    lemma_mirror_pair(q.position, q.mask);
    lemma_mirrored_preserves_wf(p);
    lemma_mirrored_preserves_wf(q);
    let kp = (p.position + p.mask) as u64;
    let mkp = (Position::spec_mirror(p.position) + Position::spec_mirror(p.mask)) as u64;
    let kq = (q.position + q.mask) as u64;
    let mkq = (Position::spec_mirror(q.position) + Position::spec_mirror(q.mask)) as u64;
    let pm = p.spec_mirrored();
    let qm = q.spec_mirrored();
    if kq == kp {
        lemma_key_sum_injective(q.position, q.mask, p.position, p.mask);
        assert(q.moves == p.moves);
        assert(q == p);
    } else if kq == mkp {
        lemma_key_sum_injective(q.position, q.mask, pm.position, pm.mask);
        assert(q.moves == pm.moves);
        assert(q == pm);
    } else if mkq == kp {
        lemma_key_sum_injective(qm.position, qm.mask, p.position, p.mask);
        assert(qm == p);
        lemma_mirror_pair(qm.position, qm.mask);
        assert(q == p.spec_mirrored());
    } else {
        assert(mkq == mkp);
        lemma_key_sum_injective(qm.position, qm.mask, pm.position, pm.mask);
        assert(qm == pm);
        assert(q == p);
    }
}

/// The canonical key of a well-formed position encodes its move count: the
/// key is the plain or the mirrored bitmap sum, and either one's column
/// bands spell out the number of pieces on the board.
pub proof fn lemma_key_encodes_moves(p: Position)
    requires
        p.wf(),
    ensures
        spec_plies_of_key(p.spec_key()) == p.get_moves_spec(),
        p.spec_key() < 0x2000000000000,
{
    lemma_key_sum_counts_pieces(p.position, p.mask);
    lemma_mirrored_preserves_wf(p);
    let q = p.spec_mirrored();
    lemma_key_sum_counts_pieces(q.position, q.mask);
    lemma_in_board_bounds(p.position, p.mask);
    lemma_in_board_bounds(q.position, q.mask);
}

/// A winning move is exactly one that wins: for a position that neither
/// side has won yet, playing a column marked by `spec_winning_move` yields
/// a won position, and playing any other column does not.
pub proof fn lemma_winning_move_wins(p: Position, col: u64)
    requires
        p.in_board(),
        p.gravity_consistent(),
        col < 7,
        p.spec_playable(col),
        !p.spec_won(),
    ensures
        p.spec_winning_move(col) <==> p.spec_played(col).spec_won(),
{
    let pos = p.position;
    let mask = p.mask;
    assert((Position::spec_winning_cells(pos, mask) & Position::spec_possible_words(mask)
        & Position::spec_column_mask(col) != 0) <==> (Position::spec_has_alignment(pos ^ mask)
        || Position::spec_has_alignment((pos ^ mask) ^ (mask | (Position::spec_possible_words(
        mask,
    ) & Position::spec_column_mask(col)))))) by (bit_vector)
        requires
            pos & !mask == 0,
            mask & !0xfdfbf7efdfbfu64 == 0,
            mask & ((mask + 0x40810204081u64) as u64) == 0,
            col < 7,
            mask & (1u64 << ((5 + col * 7) as u64)) == 0,
            !Position::spec_has_alignment(pos),
            !Position::spec_has_alignment(pos ^ mask),
    ;
}

/// The non-losing pruning is exact: a playable column survives it when,
/// and only when, the opponent has no immediate winning move in the
/// position reached by playing that column.
pub proof fn lemma_non_losing_exact(p: Position, col: u64)
    requires
        p.in_board(),
        p.gravity_consistent(),
        col < 7,
        p.spec_playable(col),
    ensures
        (p.spec_non_losing() & Position::spec_column_mask(col) != 0) <==> (
        Position::spec_winning_cells(p.spec_played(col).position, p.spec_played(col).mask)
            & p.spec_played(col).spec_possible() == 0),
{
    let pos = p.position;
    let mask = p.mask;
    assert(((Position::spec_non_losing_words(pos, mask) & Position::spec_column_mask(col) != 0)
        <==> (Position::spec_winning_cells(
        pos ^ mask,
        mask | (Position::spec_possible_words(mask) & Position::spec_column_mask(col)),
    ) & Position::spec_possible_words(
        mask | (Position::spec_possible_words(mask) & Position::spec_column_mask(col)),
    ) == 0))) by (bit_vector)
        requires
            pos & !mask == 0,
            mask & !0xfdfbf7efdfbfu64 == 0,
            mask & ((mask + 0x40810204081u64) as u64) == 0,
            col < 7,
            mask & (1u64 << ((5 + col * 7) as u64)) == 0,
    ;
}

/// Reflecting the board commutes with the winning-cell analysis: the
/// winning cells of the mirrored position are the mirrored winning cells.
pub proof fn lemma_winning_cells_mirror(position: u64, mask: u64)
    by (bit_vector)
    requires
        position & !mask == 0,
        mask & !0xfdfbf7efdfbfu64 == 0,
    ensures
        Position::spec_winning_cells(
            Position::spec_mirror(position),
            Position::spec_mirror(mask),
        ) == Position::spec_mirror(Position::spec_winning_cells(position, mask)),
{
}

/// Reflecting the board maps the columns' playability to the reflected
/// columns: column `c` of the mirror image is playable exactly when column
/// `6 - c` of the position is.
pub proof fn lemma_playable_mirror(mask: u64, col: u64)
    by (bit_vector)
    requires
        col < 7,
    ensures
        (Position::spec_mirror(mask) & Position::spec_top_mask_col(col) == 0) <==> (mask
            & Position::spec_top_mask_col((6 - col) as u64) == 0),
{
}

/// Reflecting the board maps winning moves to the reflected columns:
/// column `c` wins in the mirror image exactly when column `6 - c` wins in
/// the position itself.
pub proof fn lemma_winning_move_mirror(p: Position, col: u64)
    requires
        p.in_board(),
        col < 7,
    ensures
        p.spec_mirrored().spec_winning_move(col) <==> p.spec_winning_move((6 - col) as u64),
{
    let pos = p.position;
    let mask = p.mask;
    assert((Position::spec_winning_cells(
        Position::spec_mirror(pos),
        Position::spec_mirror(mask),
    ) & Position::spec_possible_words(Position::spec_mirror(mask)) & Position::spec_column_mask(
        col,
    ) != 0) <==> (Position::spec_winning_cells(pos, mask) & Position::spec_possible_words(mask)
        & Position::spec_column_mask((6 - col) as u64) != 0)) by (bit_vector)
        requires
            pos & !mask == 0,
            mask & !0xfdfbf7efdfbfu64 == 0,
            col < 7,
    ;
}

/// Reflecting the board commutes with playing a move: playing column `c`
/// in the mirror image reaches the mirror image of the position that
/// playing column `6 - c` reaches.
pub proof fn lemma_played_mirror(p: Position, col: u64)
    requires
        p.in_board(),
        col < 7,
    ensures
        p.spec_mirrored().spec_played(col) == p.spec_played((6 - col) as u64).spec_mirrored(),
{
    let pos = p.position;
    let mask = p.mask;
    assert(Position::spec_mirror(pos) ^ Position::spec_mirror(mask) == Position::spec_mirror(
        pos ^ mask,
    ) && Position::spec_mirror(mask) | (Position::spec_possible_words(Position::spec_mirror(mask))
        & Position::spec_column_mask(col)) == Position::spec_mirror(
        mask | (Position::spec_possible_words(mask) & Position::spec_column_mask(
            (6 - col) as u64,
        )),
    )) by (bit_vector)
        requires
            pos & !mask == 0,
            mask & !0xfdfbf7efdfbfu64 == 0,
            col < 7,
    ;
}

/// Playing a playable column of a well-formed position yields a
/// well-formed position with one more piece.
pub proof fn lemma_played_wf(p: Position, col: u64)
    requires
        p.wf(),
        col < 7,
        p.spec_playable(col),
    ensures
        p.spec_played(col).wf(),
        p.spec_played(col).get_moves_spec() == p.get_moves_spec() + 1,
{
    lemma_play_step(p.position, p.mask, col);
    let lb = p.spec_landing_cell(col);
    lemma_popcount_single(lb);
    lemma_popcount_or_disjoint(p.mask, lb);
    lemma_moves_bound(p);
}

/// A non-empty bitmap of board cells has a bit in some column.
pub proof fn lemma_board_bits_have_column(x: u64)
    requires
        x != 0,
        x & !FULL_BOARD_MASK == 0,
    ensures
        exists|c: u64| c < 7 && x & #[trigger] Position::spec_column_mask(c) != 0,
{
    assert(x != 0 && x & !0xfdfbf7efdfbfu64 == 0 ==> (x & Position::spec_column_mask(0) != 0) || (x
        & Position::spec_column_mask(1) != 0) || (x & Position::spec_column_mask(2) != 0) || (x
        & Position::spec_column_mask(3) != 0) || (x & Position::spec_column_mask(4) != 0) || (x
        & Position::spec_column_mask(5) != 0) || (x & Position::spec_column_mask(6) != 0))
        by (bit_vector);
    assert(0u64 < 7 && 1u64 < 7 && 2u64 < 7 && 3u64 < 7 && 4u64 < 7 && 5u64 < 7 && 6u64 < 7);
}

/// A position whose mover has a winning landing cell has a winning move in
/// some playable column.
pub proof fn lemma_can_win_has_column(p: Position)
    requires
        p.in_board(),
        p.gravity_consistent(),
        Position::spec_winning_cells(p.position, p.mask) & p.spec_possible() != 0,
    ensures
        exists|c: u64| c < 7 && p.spec_playable(c) && #[trigger] p.spec_winning_move(c),
{
    let pos = p.position;
    let mask = p.mask;
    let x = Position::spec_winning_cells(pos, mask) & Position::spec_possible_words(mask);
    assert(x & !0xfdfbf7efdfbfu64 == 0) by (bit_vector)
        requires
            x == Position::spec_winning_cells(pos, mask) & Position::spec_possible_words(mask),
    ;
    lemma_board_bits_have_column(x);
    let c = choose|c: u64| c < 7 && x & #[trigger] Position::spec_column_mask(c) != 0;
    assert(Position::spec_possible_words(mask) & Position::spec_column_mask(c) != 0)
        by (bit_vector)
        requires
            x == Position::spec_winning_cells(pos, mask) & Position::spec_possible_words(mask),
            x & Position::spec_column_mask(c) != 0,
    ;
    lemma_possible_column_playable(p, c);
    assert(p.spec_playable(c) && p.spec_winning_move(c));
}

/// A position with a free cell has a playable column: when fewer than 42
/// pieces are on the board, some column is not yet full.
pub proof fn lemma_not_full_has_playable(p: Position)
    requires
        p.wf(),
        p.get_moves_spec() < 42,
    ensures
        exists|c: u64| c < 7 && p.spec_playable(c),
{
    if p.spec_playable(0) {
        assert(0u64 < 7 && p.spec_playable(0));
    } else if p.spec_playable(1) {
        assert(1u64 < 7 && p.spec_playable(1));
    } else if p.spec_playable(2) {
        assert(2u64 < 7 && p.spec_playable(2));
    } else if p.spec_playable(3) {
        assert(3u64 < 7 && p.spec_playable(3));
    } else if p.spec_playable(4) {
        assert(4u64 < 7 && p.spec_playable(4));
    } else if p.spec_playable(5) {
        assert(5u64 < 7 && p.spec_playable(5));
    } else if p.spec_playable(6) {
        assert(6u64 < 7 && p.spec_playable(6));
    } else {
        let mask = p.mask;
        assert(mask & !0xfdfbf7efdfbfu64 == 0 && mask & ((mask + 0x40810204081u64) as u64) == 0
            && mask & Position::spec_top_mask_col(0) != 0 && mask & Position::spec_top_mask_col(1)
            != 0 && mask & Position::spec_top_mask_col(2) != 0 && mask
            & Position::spec_top_mask_col(3) != 0 && mask & Position::spec_top_mask_col(4) != 0
            && mask & Position::spec_top_mask_col(5) != 0 && mask & Position::spec_top_mask_col(6)
            != 0 ==> mask == 0xfdfbf7efdfbf) by (bit_vector);
        lemma_popcount_board_mask();
        assert(false);
    }
}

/// A position with a playable column has a free cell, so it holds fewer
/// pieces than the board has cells.
pub proof fn lemma_playable_not_full(p: Position, col: u64)
    requires
        p.wf(),
        col < 7,
        p.spec_playable(col),
    ensures
        p.get_moves_spec() < 42,
{
    lemma_play_step(p.position, p.mask, col);
    let mask = p.mask;
    let lb = Position::spec_possible_words(mask) & Position::spec_column_mask(col);
    assert(mask & !(0xfdfbf7efdfbfu64 & !lb) == 0 && (0xfdfbf7efdfbfu64 & !lb) & lb == 0 && ((
    0xfdfbf7efdfbfu64 & !lb) | lb) == 0xfdfbf7efdfbf) by (bit_vector)
        requires
            lb == Position::spec_possible_words(mask) & Position::spec_column_mask(col),
            mask & !0xfdfbf7efdfbfu64 == 0,
            mask & lb == 0,
    ;
    lemma_popcount_subset(mask, FULL_BOARD_MASK & !lb);
    lemma_popcount_single(lb);
    lemma_popcount_or_disjoint(FULL_BOARD_MASK & !lb, lb);
    lemma_popcount_board_mask();
}

/// Reflecting the columns of in-board bitmaps is an involution that stays
/// within the board and preserves the subset relation between the mover's
/// tiles and the occupied tiles.
proof fn lemma_mirror_pair(position: u64, mask: u64)
    by (bit_vector)
    requires
        position & !mask == 0,
        mask & !0xfdfbf7efdfbfu64 == 0,
    ensures
        Position::spec_mirror(Position::spec_mirror(position)) == position,
        Position::spec_mirror(Position::spec_mirror(mask)) == mask,
        Position::spec_mirror(position) & !Position::spec_mirror(mask) == 0,
        Position::spec_mirror(mask) & !0xfdfbf7efdfbfu64 == 0,
        mask & ((mask + 0x40810204081u64) as u64) == 0 ==> Position::spec_mirror(mask) & ((
        Position::spec_mirror(mask) + 0x40810204081u64) as u64) == 0,
{
}

/// The canonical key does not distinguish a position from its mirror image:
/// reflecting the columns leaves the key unchanged.
pub proof fn lemma_key_canonicity(p: Position)
    requires
        p.in_board(),
    ensures
        p.spec_mirrored().spec_key() == p.spec_key(),
{
    lemma_mirror_pair(p.position, p.mask);
}

/// Bounds that let the landing-cell arithmetic avoid overflow: a mask within
/// the board is numerically no larger than the board mask itself.
pub proof fn lemma_in_board_bounds(position: u64, mask: u64)
    requires
        mask & !FULL_BOARD_MASK == 0,
    ensures
        mask <= FULL_BOARD_MASK,
        mask + BOTTOM_ROW_MASK < 0x2000000000000,
        position & !mask == 0 ==> position <= mask,
{
    assert((mask & !0xfdfbf7efdfbfu64 == 0 ==> mask <= 0xfdfbf7efdfbfu64) && (position & !mask == 0
        ==> position <= mask)) by (bit_vector);
}

} // verus!
