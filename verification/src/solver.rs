//! The core solving engine: a negamax search with alpha-beta pruning, its
//! moves ordered by a threat-count heuristic, its results cached in a
//! transposition table, driven by a null-window binary search over the
//! score range.

use vstd::prelude::*;

use crate::bits::lemma_subset_bit;
use crate::game_value::{
    lemma_game_value_forced_loss, lemma_game_value_in_non_losing, lemma_game_value_no_win_upper,
    lemma_game_value_non_losing_lower, lemma_game_value_range, lemma_key_determines_value,
    spec_game_value,
};
use crate::move_sorter::{MoveEntry, MoveSorter};
use crate::opening_book::OpeningBook;
use crate::position::{
    lemma_key_encodes_moves, lemma_moves_bound, lemma_non_losing_subset, lemma_playable_not_full,
    lemma_possible_column_playable, Position,
};
use crate::transposition_table::{
    lemma_key_determined, TTEntry, TTFlag, TranspositionTable, TT_MAX_VALUE, TT_MIN_VALUE,
};

verus! {

/// A strong solver for finding the exact score of Connect Four positions.
///
/// The search is a negamax with alpha-beta pruning, score-based move
/// ordering, a transposition table for previously seen positions, and a
/// binary search on the score for faster convergence. Scores count
/// plies-to-terminal from the side to move's view: positive when the mover
/// wins, zero for a draw, negative when the mover loses.
pub struct Solver {
    /// A counter for the number of nodes explored since the last reset.
    pub explored_positions: usize,
    /// The transposition table used for caching search results.
    pub transposition_table: TranspositionTable,
    /// The opening book for instant lookups of early-game positions.
    pub opening_book: Option<OpeningBook>,
}

impl Solver {
    /// The table and the book, if one is attached, are well-formed.
    pub open spec fn wf(self) -> bool {
        &&& self.transposition_table.wf()
        &&& match self.opening_book {
            Some(book) => book.wf(),
            None => true,
        }
    }

    /// The centre-first column exploration order: central columns dominate
    /// in Connect Four, so they are searched first.
    pub open spec fn spec_column_order(i: int) -> usize {
        if i == 0 {
            3
        } else if i == 1 {
            2
        } else if i == 2 {
            4
        } else if i == 3 {
            1
        } else if i == 4 {
            5
        } else if i == 5 {
            0
        } else {
            6
        }
    }

    /// The position of a column in the centre-first exploration order.
    pub open spec fn spec_order_index(c: u64) -> int {
        if c == 3 {
            0
        } else if c == 2 {
            1
        } else if c == 4 {
            2
        } else if c == 1 {
            3
        } else if c == 5 {
            4
        } else if c == 0 {
            5
        } else {
            6
        }
    }

    /// The exploration order and its index are inverse to one another.
    proof fn lemma_order_index_inverse(c: u64)
        requires
            c < 7,
        ensures
            0 <= Self::spec_order_index(c) < 7,
            Self::spec_column_order(Self::spec_order_index(c)) == c as usize,
    {
    }

    /// Returns the `i`-th column of the centre-first exploration order.
    fn column_order(i: usize) -> (r: usize)
        requires
            i < 7,
        ensures
            r == Self::spec_column_order(i as int),
            r < 7,
    {
        if i == 0 {
            3
        } else if i == 1 {
            2
        } else if i == 2 {
            4
        } else if i == 3 {
            1
        } else if i == 4 {
            5
        } else if i == 5 {
            0
        } else {
            6
        }
    }

    /// Creates a new `Solver` with no opening book attached; a book can be
    /// attached afterwards through the `opening_book` field. Its
    /// transposition table is fresh: age zero, every slot blank.
    pub fn new() -> (r: Solver)
        ensures
            r.wf(),
            r.explored_positions == 0,
            r.opening_book is None,
            r.transposition_table.spec_age() == 0,
            forall|i: int|
                0 <= i < 8388617 ==> (#[trigger] r.transposition_table.spec_entries()[i]) == (
                TTEntry { key: 0, value: 0, flag: TTFlag::Exact, depth: 0, age: 0 }),
    {
        Solver {
            explored_positions: 0,
            transposition_table: TranspositionTable::new(),
            opening_book: None,
        }
    }

    /// Creates a new `Solver` which is empty (without an opening book).
    /// Its transposition table is fresh: age zero, every slot blank.
    pub fn empty() -> (r: Solver)
        ensures
            r.wf(),
            r.explored_positions == 0,
            r.opening_book is None,
            r.transposition_table.spec_age() == 0,
            forall|i: int|
                0 <= i < 8388617 ==> (#[trigger] r.transposition_table.spec_entries()[i]) == (
                TTEntry { key: 0, value: 0, flag: TTFlag::Exact, depth: 0, age: 0 }),
    {
        Solver {
            explored_positions: 0,
            transposition_table: TranspositionTable::new(),
            opening_book: None,
        }
    }

    /// Resets the solver's state: the node counter returns to zero and the
    /// transposition table is invalidated in constant time, by bumping its
    /// generation counter while keeping its entries in place.
    pub fn reset(&mut self)
        requires
            old(self).wf(),
        ensures
            final(self).wf(),
            final(self).explored_positions == 0,
            final(self).opening_book == old(self).opening_book,
            final(self).transposition_table.spec_age() == ((
            old(self).transposition_table.spec_age() + 1) % 256) as u8,
            final(self).transposition_table.spec_entries() == old(
                self,
            ).transposition_table.spec_entries(),
    {
        self.explored_positions = 0;
        self.transposition_table.reset();
    }

    /// Halves a score towards zero, as the window-narrowing steps of the
    /// binary search require.
    fn halve(x: i8) -> (r: i8)
        requires
            -100 <= x <= 100,
        ensures
            x >= 0 ==> r == x / 2,
            x < 0 ==> r == -((-(x as int)) / 2),
    {
        if x < 0 {
            -((((-x) as u8) / 2) as i8)
        } else {
            ((x as u8) / 2) as i8
        }
    }

    /// Solves a position to find its exact score: the game-theoretic value
    /// of the position under optimal play by both sides, counted in
    /// plies-to-terminal from the side to move's perspective.
    ///
    /// When the attached opening book holds the position's canonical key,
    /// the stored score is returned at once, without exploring a single
    /// node. Otherwise the search runs a binary search over the possible
    /// score range, repeatedly calling the negamax search with a null
    /// window, and returns exactly the game value; either way the result
    /// lies within half the free cells plus one on either side of zero.
    pub fn solve(&mut self, position: &Position) -> (r: i8)
        requires
            old(self).wf(),
            position.wf(),
        ensures
            final(self).wf(),
            TT_MIN_VALUE <= r <= TT_MAX_VALUE,
            (old(self).opening_book matches Some(book) && book.map@.contains_key(
                position.spec_key(),
            )) ==> {
                &&& r == old(self).opening_book.unwrap().map@[position.spec_key()]
                &&& final(self).explored_positions == 0
            },
            (!(old(self).opening_book matches Some(book) && book.map@.contains_key(
                position.spec_key(),
            )) && (exists|c: u64|
                c < 7 && position.spec_playable(c) && #[trigger] position.spec_winning_move(c)))
                ==> r == (((43 - position.get_moves_spec()) / 2) as i8),
            !(old(self).opening_book matches Some(book) && book.map@.contains_key(
                position.spec_key(),
            )) ==> r as int == spec_game_value(*position),
            -(((42 - position.get_moves_spec()) / 2) as int) <= r as int,
            r as int <= (43 - position.get_moves_spec()) / 2,
            final(self).opening_book == old(self).opening_book,
    {
        let ghost s = spec_game_value(*position);
        self.explored_positions = 0;
        proof {
            lemma_key_encodes_moves(*position);
            lemma_game_value_range(*position);
        }

        // Before starting the search, checks if the answer is in the book
        let book_score = match &self.opening_book {
            Some(book) => book.get(position),
            None => None,
        };
        if let Some(score) = book_score {
            return score;
        }
        proof {
            lemma_moves_bound(*position);
            if exists|c: u64|
                c < 7 && position.spec_playable(c) && #[trigger] position.spec_winning_move(c) {
                let c = choose|c: u64|
                    c < 7 && position.spec_playable(c) && #[trigger] position.spec_winning_move(c);
                lemma_playable_not_full(*position, c);
            }
        }
        let moves_made = position.get_moves();
        let rem = 42 - moves_made;

        // Initial search window is the widest possible score range
        let mut min: i8 = -((rem / 2) as i8);
        let mut max: i8 = ((rem + 1) / 2) as i8;

        while min < max
            invariant
                self.wf(),
                position.wf(),
                self.opening_book == old(self).opening_book,
                TT_MIN_VALUE <= min <= TT_MAX_VALUE,
                TT_MIN_VALUE <= max <= TT_MAX_VALUE,
                rem <= 42,
                rem == 42 - position.get_moves_spec(),
                -(((42 - position.get_moves_spec()) / 2) as int) <= min as int,
                min as int <= (43 - position.get_moves_spec()) / 2,
                s == spec_game_value(*position),
                min as int <= s,
                s <= max as int,
                (exists|c: u64|
                    c < 7 && position.spec_playable(c) && #[trigger] position.spec_winning_move(
                        c,
                    )) ==> {
                    &&& rem >= 1
                    &&& max == (((43 - position.get_moves_spec()) / 2) as i8)
                    &&& min <= max
                },
            decreases (if min <= max { max - min } else { 0 }),
        {
            // Binary search for the true score, with the probe value biased
            // towards the wider end of the window
            let mut mid = min + (((max - min) as u8 / 2) as i8);
            let min_half = Self::halve(min);
            let max_half = Self::halve(max);
            if mid <= 0 && min_half < mid {
                mid = min_half;
            } else if mid >= 0 && max_half > mid {
                mid = max_half;
            }

            // A null-window search tests whether the score beats the probe
            let score = self.negamax(position, rem as u8, mid, mid + 1);

            // Adjusts the search window based on the result
            if score <= mid {
                max = score;
            } else {
                min = score;
            }
        }
        min
    }

    /// Calculates the scores for all possible next moves in the position.
    ///
    /// Returns a list with one slot per column: `Some(score)` when a move in
    /// that column is possible, `None` when the column is full. A winning
    /// move scores half the free cells plus one; for a bookless solver any
    /// other playable column scores exactly minus the game value of the
    /// position it reaches. When the position is already won, or the board
    /// is full, no moves are possible and every slot is `None`: the search
    /// is not entered at all.
    ///
    /// The list can be used directly to pick an optimal move to play.
    pub fn get_all_move_scores(&mut self, position: &Position) -> (r: Vec<Option<i8>>)
        requires
            old(self).wf(),
            position.wf(),
        ensures
            final(self).wf(),
            r@.len() == 7,
            forall|c: int|
                0 <= c < 7 ==> ((#[trigger] r@[c]) matches Some(s) ==> TT_MIN_VALUE <= s
                    <= TT_MAX_VALUE),
            (position.spec_won() || position.get_moves_spec() == 42) ==> forall|c: int|
                0 <= c < 7 ==> r@[c] is None,
            !(position.spec_won() || position.get_moves_spec() == 42) ==> forall|c: int|
                0 <= c < 7 ==> ((#[trigger] r@[c]) is Some <==> position.spec_playable(c as u64)),
            !(position.spec_won() || position.get_moves_spec() == 42) ==> forall|c: int|
                0 <= c < 7 && position.spec_playable(c as u64) && position.spec_winning_move(
                    c as u64,
                ) ==> (#[trigger] r@[c]) == Some((((43 - position.get_moves_spec()) / 2) as i8)),
            (old(self).opening_book is None && !(position.spec_won() || position.get_moves_spec()
                == 42)) ==> forall|c: int|
                0 <= c < 7 && position.spec_playable(c as u64) && !position.spec_winning_move(
                    c as u64,
                ) ==> (#[trigger] r@[c]) == Some(
                    ((-spec_game_value(position.spec_played(c as u64))) as i8),
                ),
    {
        let mut scores: Vec<Option<i8>> = Vec::new();
        let mut fill: usize = 0;
        while fill < 7
            invariant
                fill <= 7,
                scores@.len() == fill,
                forall|c: int| 0 <= c < fill ==> (#[trigger] scores@[c]) is None,
            decreases 7 - fill,
        {
            scores.push(None);
            fill = fill + 1;
        }

        // If the game is won or the board is full, no moves are possible
        if position.is_won_position() {
            return scores;
        }
        proof {
            lemma_moves_bound(*position);
        }
        let moves_made = position.get_moves();
        if moves_made >= 42 {
            return scores;
        }
        let rem = 42 - moves_made;

        // A bitmask of all possible moves in the position
        let possible = position.possible();

        // Loops through all playable columns, in the centre-first order,
        // calculating and storing their scores
        let mut i: usize = 0;
        while i < 7
            invariant
                i <= 7,
                position.wf(),
                self.wf(),
                self.opening_book == old(self).opening_book,
                scores@.len() == 7,
                rem == 42 - position.get_moves_spec(),
                1 <= rem <= 42,
                possible == position.spec_possible(),
                forall|c: int|
                    0 <= c < 7 ==> ((#[trigger] scores@[c]) matches Some(s) ==> TT_MIN_VALUE <= s
                        <= TT_MAX_VALUE),
                forall|j: int|
                    0 <= j < i ==> ((#[trigger] scores@[Self::spec_column_order(j) as int]) is Some
                        <==> position.spec_playable(Self::spec_column_order(j) as u64)),
                forall|j: int|
                    0 <= j < i && position.spec_playable(Self::spec_column_order(j) as u64)
                        && position.spec_winning_move(Self::spec_column_order(j) as u64) ==> (
                    #[trigger] scores@[Self::spec_column_order(j) as int]) == Some(
                        (((43 - position.get_moves_spec()) / 2) as i8),
                    ),
                old(self).opening_book is None ==> forall|j: int|
                    0 <= j < i && position.spec_playable(Self::spec_column_order(j) as u64)
                        && !position.spec_winning_move(Self::spec_column_order(j) as u64) ==> (
                    #[trigger] scores@[Self::spec_column_order(j) as int]) == Some(
                        ((-spec_game_value(
                            position.spec_played(Self::spec_column_order(j) as u64),
                        )) as i8),
                    ),
                forall|j: int|
                    i <= j < 7 ==> (#[trigger] scores@[Self::spec_column_order(j) as int]) is None,
            decreases 7 - i,
        {
            let column = Self::column_order(i);
            proof {
                lemma_possible_column_playable(*position, column as u64);
                assert forall|a: int, b: int|
                    0 <= a < 7 && 0 <= b < 7 && a != b implies Self::spec_column_order(a)
                    != Self::spec_column_order(b) by {}
            }
            if possible & Position::column_mask(column) == 0 {
                i = i + 1;
                continue;
            }
            if position.is_winning_move(column) {
                scores[column] = Some(((rem + 1) / 2) as i8);
                i = i + 1;
                continue;
            }
            let mut new_position = *position;
            new_position.play(column);
            let ghost pre_book = self.opening_book;
            let opponent_score = self.solve(&new_position);
            proof {
                if pre_book is None {
                    lemma_game_value_range(new_position);
                    assert(opponent_score as int == spec_game_value(new_position));
                }
            }
            scores[column] = Some(-opponent_score);
            i = i + 1;
        }
        proof {
            // Every column appears once in the exploration order, so the
            // per-order-step facts of the loop cover every column index
            assert forall|c: int|
                0 <= c < 7 implies (((#[trigger] scores@[c]) is Some <==> position.spec_playable(
                c as u64,
            )) && (position.spec_playable(c as u64) && position.spec_winning_move(c as u64)
                ==> scores@[c] == Some((((43 - position.get_moves_spec()) / 2) as i8)))) by {
                let j: int = if c == 3 {
                    0
                } else if c == 2 {
                    1
                } else if c == 4 {
                    2
                } else if c == 1 {
                    3
                } else if c == 5 {
                    4
                } else if c == 0 {
                    5
                } else {
                    6
                };
                assert(Self::spec_column_order(j) == c);
                assert(scores@[Self::spec_column_order(j) as int] is Some
                    <==> position.spec_playable(Self::spec_column_order(j) as u64));
                assert(position.spec_playable(Self::spec_column_order(j) as u64)
                    && position.spec_winning_move(Self::spec_column_order(j) as u64)
                    ==> scores@[Self::spec_column_order(j) as int] == Some(
                    (((43 - position.get_moves_spec()) / 2) as i8),
                ));
            }
            if old(self).opening_book is None {
                assert forall|c: int|
                    0 <= c < 7 && position.spec_playable(c as u64) && !position.spec_winning_move(
                        c as u64,
                    ) implies (#[trigger] scores@[c]) == Some(
                    ((-spec_game_value(position.spec_played(c as u64))) as i8),
                ) by {
                    let j: int = if c == 3 {
                        0
                    } else if c == 2 {
                        1
                    } else if c == 4 {
                        2
                    } else if c == 1 {
                        3
                    } else if c == 5 {
                        4
                    } else if c == 0 {
                        5
                    } else {
                        6
                    };
                    assert(Self::spec_column_order(j) == c);
                    assert(position.spec_playable(Self::spec_column_order(j) as u64)
                        && !position.spec_winning_move(Self::spec_column_order(j) as u64)
                        ==> scores@[Self::spec_column_order(j) as int] == Some(
                        ((-spec_game_value(
                            position.spec_played(Self::spec_column_order(j) as u64),
                        )) as i8),
                    ));
                }
            }
        }
        scores
    }

    /// The core negamax search function with alpha-beta pruning.
    ///
    /// The position must not already be won for the side that just moved;
    /// terminal detection happens one ply earlier, in the immediate-win
    /// check, and `depth` is the number of free cells. The result relates
    /// to the game value of the position by the usual window reading:
    /// exact when it lies strictly inside the window, an upper bound of
    /// the value at or below `alpha`, a lower bound at or above `beta`.
    pub fn negamax(&mut self, position: &Position, depth: u8, alpha: i8, beta: i8) -> (r: i8)
        requires
            old(self).wf(),
            position.wf(),
            depth == 42 - position.get_moves_spec(),
            TT_MIN_VALUE <= alpha,
            alpha < beta,
            beta <= TT_MAX_VALUE,
        ensures
            final(self).wf(),
            TT_MIN_VALUE <= r <= TT_MAX_VALUE,
            -(((42 - position.get_moves_spec()) / 2) as int) <= r as int,
            r as int <= (43 - position.get_moves_spec()) / 2,
            final(self).opening_book == old(self).opening_book,
            depth == 0 ==> r == 0,
            (depth >= 1 && (exists|c: u64|
                c < 7 && position.spec_playable(c) && #[trigger] position.spec_winning_move(c)))
                ==> r == (((43 - position.get_moves_spec()) / 2) as i8),
            alpha < r < beta ==> r as int == spec_game_value(*position),
            r <= alpha ==> spec_game_value(*position) <= r as int,
            r >= beta ==> spec_game_value(*position) >= r as int,
        decreases depth,
    {
        let ghost alpha_in = alpha;
        let ghost beta_in = beta;
        let ghost s = spec_game_value(*position);
        let mut alpha = alpha;
        let mut beta = beta;
        self.explored_positions = self.explored_positions.saturating_add(1);

        // Checks for a drawn game
        if depth == 0 {
            return 0;
        }
        proof {
            lemma_moves_bound(*position);
        }
        let moves_made = position.get_moves();
        let rem = 42 - moves_made;

        // Checks if the current player can win the game with their move
        let mut i: usize = 0;
        while i < 7
            invariant
                i <= 7,
                position.wf(),
                self.wf(),
                self.opening_book == old(self).opening_book,
                rem == 42 - position.get_moves_spec(),
                position.get_moves_spec() <= 42,
                depth >= 1,
                forall|c: u64|
                    c < i ==> !(position.spec_playable(c) && #[trigger] position.spec_winning_move(
                        c,
                    )),
            decreases 7 - i,
        {
            if position.is_playable(i) && position.is_winning_move(i) {
                proof {
                    assert(position.spec_playable(i as u64) && position.spec_winning_move(
                        i as u64,
                    ));
                }
                return ((rem + 1) / 2) as i8;
            }
            i = i + 1;
        }
        proof {
            assert(!(exists|c: u64|
                c < 7 && position.spec_playable(c) && #[trigger] position.spec_winning_move(c)));
            assert(s == crate::game_value::spec_best_reply(*position, 0));
            crate::game_value::lemma_best_reply_characterised(*position, 0);
        }

        // Transposition table look-up
        let original_alpha = alpha;
        let key = position.get_key();
        proof {
            lemma_key_encodes_moves(*position);
        }
        match self.transposition_table.get(key) {
            Some(entry) => {
                if entry.depth >= depth {
                    proof {
                        // The entry is real (its depth is positive), so it
                        // was stored for a key with this bucket and these
                        // low bits; such a key is this position's key, so
                        // the stored position shares it and has the same
                        // game value
                        let k = self.transposition_table.spec_stored_key(
                            TranspositionTable::spec_index(key),
                        );
                        lemma_key_determined(k, key);
                        let q = self.transposition_table.spec_stored_pos(
                            TranspositionTable::spec_index(key),
                        );
                        lemma_key_determines_value(*position, q);
                    }
                    match entry.flag {
                        TTFlag::Exact => {
                            return entry.value;
                        },
                        TTFlag::LowerBound => {
                            if entry.value >= beta {
                                return entry.value;
                            }
                        },
                        TTFlag::UpperBound => {
                            if entry.value <= alpha {
                                return entry.value;
                            }
                        },
                    }
                }
            },
            None => {},
        }

        // Move generation and pruning
        let possible_moves = position.possible_non_losing_moves();
        if possible_moves == 0 {
            // With no non-losing move, the opponent is guaranteed to win
            proof {
                lemma_game_value_forced_loss(*position);
            }
            return -((rem / 2) as i8);
        }
        proof {
            lemma_game_value_non_losing_lower(*position);
            lemma_game_value_no_win_upper(*position);
        }

        // Tightens the lower bound, as the opponent cannot win next move
        let lo: i8 = if rem >= 2 {
            -(((rem - 2) / 2) as i8)
        } else {
            ((2 - rem) / 2) as i8
        };
        if alpha < lo {
            if lo >= beta {
                return lo;
            }
            alpha = lo;
        }

        // Tightens the upper bound, as the mover cannot win immediately
        let hi: i8 = if rem >= 1 {
            ((rem - 1) / 2) as i8
        } else {
            0
        };
        if beta > hi {
            if alpha >= hi {
                return hi;
            }
            beta = hi;
        }

        // Scores and sorts possible moves to explore the best ones first;
        // the centre-first order is inserted in reverse so that the centre
        // pops first among equal scores
        let mut moves = MoveSorter::new();
        let mut j: usize = 0;
        while j < 7
            invariant
                j <= 7,
                position.wf(),
                self.wf(),
                self.opening_book == old(self).opening_book,
                moves.wf(),
                moves.view().len() <= j,
                possible_moves == position.spec_non_losing(),
                forall|t: int|
                    0 <= t < moves.view().len() ==> (#[trigger] moves.view()[t]).column < 7
                        && possible_moves & Position::spec_column_mask(
                        moves.view()[t].column as u64,
                    ) != 0,
                forall|c: u64|
                    c < 7 && possible_moves & #[trigger] Position::spec_column_mask(c) != 0
                        && Self::spec_order_index(c) >= 7 - j ==> (exists|t: int|
                        0 <= t < moves.view().len() && (#[trigger] moves.view()[t]).column
                            == c as usize),
            decreases 7 - j,
        {
            let column = Self::column_order(6 - j);
            let move_bit = possible_moves & Position::column_mask(column);
            let ghost pre_view = moves.view();
            if move_bit > 0 {
                let score = position.score_move(move_bit);
                moves.add(column, score);
                proof {
                    let k = choose|k: int|
                        MoveSorter::spec_inserted(pre_view, moves.view(), column, score, k);
                    assert(MoveSorter::spec_inserted(pre_view, moves.view(), column, score, k));
                    assert forall|t: int| 0 <= t < moves.view().len() implies ((
                    #[trigger] moves.view()[t]).column < 7 && possible_moves
                        & Position::spec_column_mask(moves.view()[t].column as u64) != 0) by {
                        if t < k {
                            assert(moves.view()[t] == pre_view[t]);
                        } else if t == k {
                            assert(moves.view()[t] == (MoveEntry { column, score }));
                        } else {
                            assert(moves.view()[t] == pre_view[t - 1]);
                        }
                    }
                    // Every column already in the container stays in it, and
                    // the inserted column joins it
                    assert forall|c: u64|
                        c < 7 && possible_moves & #[trigger] Position::spec_column_mask(c) != 0
                            && Self::spec_order_index(c) >= 7 - (j + 1) implies (exists|t: int|
                        0 <= t < moves.view().len() && (#[trigger] moves.view()[t]).column
                            == c as usize) by {
                        if c as usize == column {
                            assert(moves.view()[k].column == c as usize);
                        } else {
                            Self::lemma_order_index_inverse(c);
                            assert(Self::spec_order_index(c) >= 7 - j);
                            let t0 = choose|t: int|
                                0 <= t < pre_view.len() && (#[trigger] pre_view[t]).column
                                    == c as usize;
                            if t0 < k {
                                assert(moves.view()[t0].column == c as usize);
                            } else {
                                assert(moves.view()[t0 + 1].column == c as usize);
                            }
                        }
                    }
                }
            }
            proof {
                if move_bit == 0 {
                    assert forall|c: u64|
                        c < 7 && possible_moves & #[trigger] Position::spec_column_mask(c) != 0
                            && Self::spec_order_index(c) >= 7 - (j + 1) implies (exists|t: int|
                        0 <= t < moves.view().len() && (#[trigger] moves.view()[t]).column
                            == c as usize) by {
                        if c as usize == column {
                            assert(possible_moves & Position::spec_column_mask(c) == 0);
                        } else {
                            Self::lemma_order_index_inverse(c);
                            assert(Self::spec_order_index(c) >= 7 - j);
                        }
                    }
                }
            }
            j = j + 1;
        }

        // Computes the scores of all possible next moves, keeping the best
        let ghost alpha_entry = alpha;
        loop
            invariant_except_break
                alpha < beta,
            invariant
                alpha < beta ==> forall|c: u64|
                    c < 7 && possible_moves & #[trigger] Position::spec_column_mask(c) != 0 && !(
                    exists|t: int|
                        0 <= t < moves.view().len() && (#[trigger] moves.view()[t]).column
                            == c as usize) ==> -spec_game_value(position.spec_played(c))
                        <= alpha as int,
                s == spec_game_value(*position),
                s == crate::game_value::spec_best_reply(*position, 0),
                position.wf(),
                self.wf(),
                self.opening_book == old(self).opening_book,
                moves.wf(),
                possible_moves == position.spec_non_losing(),
                TT_MIN_VALUE <= alpha <= TT_MAX_VALUE,
                TT_MIN_VALUE <= beta <= TT_MAX_VALUE,
                depth >= 1,
                depth == 42 - position.get_moves_spec(),
                -(((42 - position.get_moves_spec()) / 2) as int) <= alpha as int,
                alpha as int <= (43 - position.get_moves_spec()) / 2,
                alpha_entry <= alpha,
                alpha == alpha_entry || alpha as int <= s,
                forall|t: int|
                    0 <= t < moves.view().len() ==> (#[trigger] moves.view()[t]).column < 7
                        && possible_moves & Position::spec_column_mask(
                        moves.view()[t].column as u64,
                    ) != 0,
            ensures
                alpha >= beta || moves.view().len() == 0,
            decreases moves.view().len(),
        {
            let ghost pre_view = moves.view();
            let ghost pre_alpha = alpha;
            let next_column = moves.next();
            match next_column {
                None => {
                    break;
                },
                Some(column) => {
                    proof {
                        lemma_non_losing_subset(position.position, position.mask);
                        lemma_subset_bit(
                            possible_moves,
                            position.spec_possible(),
                            Position::spec_column_mask(column as u64),
                        );
                        lemma_possible_column_playable(*position, column as u64);
                    }
                    let mut new_position = *position;
                    new_position.play(column);
                    let opponent_score = self.negamax(&new_position, depth - 1, -beta, -alpha);
                    let ghost s_child = spec_game_value(new_position);
                    let score = -opponent_score;
                    proof {
                        // The reply through this column never beats the
                        // value, and what the child call reports makes the
                        // column's reply covered by the updated window
                        crate::game_value::lemma_best_reply_characterised(*position, 0);
                        assert(new_position == position.spec_played(column as u64));
                        assert(s >= -s_child);
                        if opponent_score <= -beta {
                            assert(s_child <= opponent_score as int);
                            assert(s >= score as int);
                        } else if opponent_score >= -pre_alpha {
                            assert(s_child >= opponent_score as int);
                            assert(-s_child <= pre_alpha as int);
                        } else {
                            assert(opponent_score as int == s_child);
                        }
                    }
                    if score > alpha {
                        alpha = score;
                    }
                    proof {
                        if alpha < beta {
                            assert forall|c: u64|
                                c < 7 && possible_moves & #[trigger] Position::spec_column_mask(c)
                                    != 0 && !(exists|t: int|
                                    0 <= t < moves.view().len() && (
                                    #[trigger] moves.view()[t]).column == c as usize)
                                implies -spec_game_value(position.spec_played(c))
                                <= alpha as int by {
                                if c as usize == column {
                                    assert(-s_child <= alpha as int);
                                } else if exists|t: int|
                                    0 <= t < pre_view.len() && (#[trigger] pre_view[t]).column
                                        == c as usize {
                                    let t0 = choose|t: int|
                                        0 <= t < pre_view.len() && (#[trigger] pre_view[t]).column
                                            == c as usize;
                                    if t0 < pre_view.len() - 1 {
                                        assert(moves.view()[t0] == pre_view[t0]);
                                        assert(moves.view()[t0].column == c as usize);
                                    } else {
                                        assert(pre_view[t0].column == column);
                                    }
                                } else {
                                    assert(-spec_game_value(position.spec_played(c))
                                        <= pre_alpha as int);
                                }
                            }
                        }
                    }

                    // Stops searching on a score outside the search window
                    if alpha >= beta {
                        break;
                    }
                },
            }
        }

        proof {
            lemma_key_encodes_moves(*position);
            if alpha < beta {
                // The container drained without a cutoff, so every
                // non-losing reply is covered and some non-losing reply
                // achieves the value
                lemma_game_value_in_non_losing(*position);
                let e = choose|e: u64|
                    e < 7 && possible_moves & #[trigger] Position::spec_column_mask(e) != 0 && s
                        == -spec_game_value(position.spec_played(e));
                assert(s <= alpha as int);
            }
            assert(alpha as int == s || (alpha <= alpha_in && s <= alpha as int) || (alpha >= beta
                && alpha as int <= s)) by {
                if alpha == alpha_entry {
                    if alpha_entry == alpha_in {
                    } else {
                        assert(s >= alpha_entry as int);
                    }
                } else {
                }
            }
        }

        // Stores the result of this search in the transposition table
        let flag = if alpha <= original_alpha {
            TTFlag::UpperBound
        } else if alpha >= beta {
            TTFlag::LowerBound
        } else {
            TTFlag::Exact
        };
        proof {
            let ghost q = *position;
            assert(q.spec_key() == key && q.wf());
        }
        self.transposition_table.put(key, alpha, flag, depth);

        alpha
    }
}

impl Default for Solver {
    /// A solver with a fresh transposition table and no opening book.
    fn default() -> (r: Solver)
        ensures
            r.wf(),
            r.explored_positions == 0,
            r.opening_book is None,
            r.transposition_table.spec_age() == 0,
            forall|i: int|
                0 <= i < 8388617 ==> (#[trigger] r.transposition_table.spec_entries()[i]) == (
                TTEntry { key: 0, value: 0, flag: TTFlag::Exact, depth: 0, age: 0 }),
    {
        Solver::new()
    }
}

} // verus!
