//! A generator that populates an opening book: a breadth-first enumeration
//! of the positions reachable from the empty board up to a configured ply
//! depth, solving each one and recording its score under its canonical key.

use std::collections::HashSet;
use vstd::prelude::*;

use crate::game_value::{lemma_key_determines_value, spec_game_value};
use crate::opening_book::OpeningBook;
use crate::position::{
    lemma_key_encodes_moves, lemma_moves_bound, lemma_possible_column_playable, Position,
};
use crate::solver::Solver;

verus! {

broadcast use vstd::std_specs::hash::group_hash_axioms;

/// A utility for generating a new `OpeningBook`.
pub struct OpeningBookGenerator;

impl OpeningBookGenerator {
    /// Generates book entries for all positions reachable from the empty
    /// board within `max_depth` plies.
    pub fn generate(max_depth: usize) -> (r: OpeningBook)
        ensures
            r.wf(),
            r.map@.contains_key((Position { position: 0, mask: 0, moves: 0 }).spec_key()),
            forall|q: Position|
                q.wf() && #[trigger] r.map@.contains_key(q.spec_key()) ==> r.map@[q.spec_key()] as int
                    == spec_game_value(q),
    {
        Self::generate_from(&Position::new(), max_depth)
    }

    /// Generates book entries for all non-terminal positions reachable from
    /// `start` within `max_depth` further plies, solving each position and
    /// recording its score under its canonical key. Deduplication goes by
    /// canonical keys, so a position and its mirror image share one entry.
    ///
    /// Every entry of the book is exact: for any well-formed position whose
    /// canonical key the book holds, the stored score is that position's
    /// game value.
    pub fn generate_from(start: &Position, max_depth: usize) -> (r: OpeningBook)
        requires
            start.wf(),
        ensures
            r.wf(),
            r.map@.contains_key(start.spec_key()),
            forall|q: Position|
                q.wf() && #[trigger] r.map@.contains_key(q.spec_key()) ==> r.map@[q.spec_key()] as int
                    == spec_game_value(q),
    {
        let mut book = OpeningBook::new();
        let mut solver = Solver::empty();

        // A set of the canonical keys already enqueued, so that no position
        // is explored twice
        let mut seen: HashSet<u64> = HashSet::new();
        seen.insert(start.get_key());
        let mut current_level: Vec<Position> = Vec::new();
        current_level.push(*start);

        // Breadth-first loop exploring each depth in sequence
        let mut depth: usize = 0;
        while depth <= max_depth
            invariant
                book.wf(),
                solver.wf(),
                solver.opening_book is None,
                start.wf(),
                forall|q: Position|
                    q.wf() && #[trigger] book.map@.contains_key(q.spec_key())
                        ==> book.map@[q.spec_key()] as int == spec_game_value(q),
                depth == 0 ==> current_level@ == seq![*start],
                depth >= 1 ==> book.map@.contains_key(start.spec_key()),
                forall|t: int|
                    0 <= t < current_level@.len() ==> (#[trigger] current_level@[t]).wf(),
            ensures
                book.map@.contains_key(start.spec_key()),
            decreases max_depth - depth,
        {
            if current_level.len() == 0 {
                break;
            }

            // Solves every position of the current level, then gathers the
            // children for the next one
            let mut next_level: Vec<Position> = Vec::new();
            let mut i: usize = 0;
            while i < current_level.len()
                invariant
                    book.wf(),
                    solver.wf(),
                    solver.opening_book is None,
                    start.wf(),
                    forall|q: Position|
                        q.wf() && #[trigger] book.map@.contains_key(q.spec_key())
                            ==> book.map@[q.spec_key()] as int == spec_game_value(q),
                    i <= current_level@.len(),
                    depth == 0 ==> current_level@ == seq![*start],
                    (depth >= 1 || i >= 1) ==> book.map@.contains_key(start.spec_key()),
                    forall|t: int|
                        0 <= t < current_level@.len() ==> (#[trigger] current_level@[t]).wf(),
                    forall|t: int|
                        0 <= t < next_level@.len() ==> (#[trigger] next_level@[t]).wf(),
                decreases current_level@.len() - i,
            {
                let pos = current_level[i];
                let key = pos.get_key();
                let score = solver.solve(&pos);
                if !book.contains(key) {
                    proof {
                        // The solver ran without a book, so its result is
                        // the exact game value of the solved position; any
                        // position carrying this canonical key shares that
                        // value
                        lemma_key_encodes_moves(pos);
                    }
                    book.insert(key, score);
                    proof {
                        assert forall|q: Position|
                            q.wf() && #[trigger] book.map@.contains_key(q.spec_key())
                                implies book.map@[q.spec_key()] as int == spec_game_value(q) by {
                            if q.spec_key() == key {
                                lemma_key_determines_value(pos, q);
                            }
                        }
                    }
                }

                // Enqueues the unseen children of the position
                let children = Self::generate_children(&pos);
                let mut c: usize = 0;
                while c < children.len()
                    invariant
                        c <= children@.len(),
                        forall|t: int|
                            0 <= t < children@.len() ==> (#[trigger] children@[t]).wf(),
                        forall|t: int|
                            0 <= t < next_level@.len() ==> (#[trigger] next_level@[t]).wf(),
                    decreases children@.len() - c,
                {
                    let child = children[c];
                    if seen.insert(child.get_key()) {
                        next_level.push(child);
                    }
                    c = c + 1;
                }
                i = i + 1;
            }
            if depth == max_depth {
                break;
            }
            current_level = next_level;
            depth = depth + 1;
        }
        book
    }

    /// The non-terminal children of a position, from column `c` onwards:
    /// the position after one move in each playable column, in column
    /// order, skipping children that are already won.
    pub open spec fn spec_children_from(p: Position, c: u64) -> Seq<Position>
        decreases 7 - c,
    {
        if c >= 7 {
            Seq::empty()
        } else {
            (if p.spec_playable(c) && !p.spec_played(c).spec_won() {
                seq![p.spec_played(c)]
            } else {
                Seq::empty()
            }) + Self::spec_children_from(p, (c + 1) as u64)
        }
    }

    /// Generates all non-terminal child positions of a position: one move in
    /// each playable column, in column order, skipping children that are
    /// already won.
    pub fn generate_children(pos: &Position) -> (r: Vec<Position>)
        requires
            pos.wf(),
        ensures
            r@ == Self::spec_children_from(*pos, 0),
            forall|t: int| 0 <= t < r@.len() ==> (#[trigger] r@[t]).wf(),
            forall|t: int|
                0 <= t < r@.len() ==> (#[trigger] r@[t]).get_moves_spec() == pos.get_moves_spec()
                    + 1,
    {
        let mut children: Vec<Position> = Vec::new();
        let possible_moves = pos.possible();
        let mut col: usize = 0;
        while col < 7
            invariant
                col <= 7,
                pos.wf(),
                possible_moves == pos.spec_possible(),
                Self::spec_children_from(*pos, 0) == children@ + Self::spec_children_from(
                    *pos,
                    col as u64,
                ),
                forall|t: int| 0 <= t < children@.len() ==> (#[trigger] children@[t]).wf(),
                forall|t: int|
                    0 <= t < children@.len() ==> (#[trigger] children@[t]).get_moves_spec()
                        == pos.get_moves_spec() + 1,
            decreases 7 - col,
        {
            let ghost pre = children@;
            proof {
                lemma_possible_column_playable(*pos, col as u64);
            }
            if possible_moves & Position::column_mask(col) > 0 {
                proof {
                    lemma_moves_bound(*pos);
                }
                let mut next_pos = *pos;
                next_pos.play(col);
                if !next_pos.is_won_position() {
                    children.push(next_pos);
                }
            }
            proof {
                assert(children@ + Self::spec_children_from(*pos, (col + 1) as u64) =~= pre
                    + Self::spec_children_from(*pos, col as u64));
            }
            col = col + 1;
        }
        proof {
            assert(children@ + Seq::<Position>::empty() =~= children@);
        }
        children
    }
}

} // verus!
