//! The game-theoretic value of a position: the score that perfect play by
//! both sides yields, defined recursively over the board, and the laws that
//! tie it to the board primitives — its range, its behaviour on immediate
//! wins and forced losses, and its invariance under mirroring.

use vstd::prelude::*;

use crate::position::{
    lemma_board_bits_have_column, lemma_can_win_has_column, lemma_mirrored_preserves_wf,
    lemma_moves_bound, lemma_non_losing_exact, lemma_non_losing_moves_are_possible,
    lemma_not_full_has_playable, lemma_playable_mirror, lemma_played_mirror, lemma_played_wf,
    lemma_possible_column_playable, lemma_winning_move_mirror, Position,
};
use crate::bits::lemma_subset_bit;

verus! {

/// The exact score of a position under optimal play by both sides, counted
/// in plies-to-terminal from the side to move's view: zero on a full board,
/// half the free cells plus one when the mover can win at once, and
/// otherwise the best negated value among the positions one move away.
///
/// The definition is meaningful for well-formed positions that neither side
/// has won yet, the positions the engine accepts.
pub open spec fn spec_game_value(p: Position) -> int
    decreases 42 - p.moves, 1int, 0int,
{
    if p.moves >= 42 {
        0
    } else if exists|c: u64| c < 7 && p.spec_playable(c) && #[trigger] p.spec_winning_move(c) {
        (43 - p.moves) / 2
    } else {
        spec_best_reply(p, 0)
    }
}

/// The best negated child value among the playable columns of index `c` or
/// higher; an impossibly low score when no such column remains.
pub open spec fn spec_best_reply(p: Position, c: u64) -> int
    decreases 42 - p.moves, 0int, 7 - c,
{
    if c >= 7 || p.moves >= 42 {
        -100
    } else {
        let rest = spec_best_reply(p, (c + 1) as u64);
        if p.spec_playable(c) {
            let reply = -spec_game_value(p.spec_played(c));
            if reply > rest {
                reply
            } else {
                rest
            }
        } else {
            rest
        }
    }
}

/// The game value lies within the score range of the position: no outcome
/// can be better than winning with the last free cell nor worse than the
/// opponent doing so.
pub proof fn lemma_game_value_range(p: Position)
    requires
        p.wf(),
    ensures
        -(((42 - p.get_moves_spec()) / 2) as int) <= spec_game_value(p),
        spec_game_value(p) <= (43 - p.get_moves_spec()) / 2,
    decreases 42 - p.moves, 1int, 0int,
{
    lemma_moves_bound(p);
    if p.moves >= 42 {
    } else if exists|c: u64| c < 7 && p.spec_playable(c) && #[trigger] p.spec_winning_move(c) {
    } else {
        lemma_not_full_has_playable(p);
        lemma_best_reply_range(p, 0);
    }
}

/// The best reply among columns of index `c` or higher never beats the
/// score of winning on the next move, and when a playable column exists it
/// is no worse than letting the opponent win at once.
proof fn lemma_best_reply_range(p: Position, c: u64)
    requires
        p.wf(),
        p.get_moves_spec() < 42,
    ensures
        spec_best_reply(p, c) <= (43 - p.get_moves_spec()) / 2,
        (exists|d: u64| c <= d < 7 && p.spec_playable(d)) ==> spec_best_reply(p, c) >= -(((42
            - p.get_moves_spec()) / 2) as int),
    decreases 42 - p.moves, 0int, 7 - c,
{
    lemma_moves_bound(p);
    if c >= 7 {
    } else {
        lemma_best_reply_range(p, (c + 1) as u64);
        if p.spec_playable(c) {
            lemma_played_wf(p, c);
            lemma_game_value_range(p.spec_played(c));
            if exists|d: u64| (c + 1) <= d < 7 && p.spec_playable(d) {
            } else {
                assert(spec_best_reply(p, (c + 1) as u64) == -100) by {
                    lemma_best_reply_none(p, (c + 1) as u64);
                }
            }
        } else {
            if exists|d: u64| c <= d < 7 && p.spec_playable(d) {
                let d = choose|d: u64| c <= d < 7 && p.spec_playable(d);
                assert((c + 1) <= d < 7 && p.spec_playable(d));
            }
        }
    }
}

/// With no playable column of index `c` or higher, the best reply is the
/// impossibly low placeholder.
proof fn lemma_best_reply_none(p: Position, c: u64)
    requires
        forall|d: u64| c <= d < 7 ==> !p.spec_playable(d),
    ensures
        spec_best_reply(p, c) == -100,
    decreases 7 - c,
{
    if c < 7 {
        lemma_best_reply_none(p, (c + 1) as u64);
    }
}

/// The value of every reply bounds the best reply from below, and the best
/// reply is achieved by some playable column when one exists.
pub proof fn lemma_best_reply_characterised(p: Position, c: u64)
    requires
        p.wf(),
        p.get_moves_spec() < 42,
    ensures
        forall|d: u64|
            c <= d < 7 && p.spec_playable(d) ==> spec_best_reply(p, c) >= -spec_game_value(
                #[trigger] p.spec_played(d),
            ),
        (exists|d: u64| c <= d < 7 && p.spec_playable(d)) ==> (exists|d: u64|
            c <= d < 7 && p.spec_playable(d) && spec_best_reply(p, c) == -spec_game_value(
                #[trigger] p.spec_played(d),
            )),
    decreases 7 - c,
{
    lemma_moves_bound(p);
    if c < 7 {
        lemma_best_reply_characterised(p, (c + 1) as u64);
        let rest = spec_best_reply(p, (c + 1) as u64);
        if p.spec_playable(c) {
            let reply = -spec_game_value(p.spec_played(c));
            if reply > rest {
                assert(spec_best_reply(p, c) == -spec_game_value(p.spec_played(c)));
            } else {
                if exists|d: u64| (c + 1) <= d < 7 && p.spec_playable(d) {
                    let d = choose|d: u64|
                        (c + 1) <= d < 7 && p.spec_playable(d) && rest == -spec_game_value(
                            #[trigger] p.spec_played(d),
                        );
                    assert(c <= d < 7 && p.spec_playable(d) && spec_best_reply(p, c)
                        == -spec_game_value(p.spec_played(d)));
                } else {
                    lemma_best_reply_none(p, (c + 1) as u64);
                    lemma_played_wf(p, c);
                    lemma_game_value_range(p.spec_played(c));
                    assert(spec_best_reply(p, c) == -spec_game_value(p.spec_played(c)));
                }
            }
        } else {
            if exists|d: u64| c <= d < 7 && p.spec_playable(d) {
                let d = choose|d: u64| c <= d < 7 && p.spec_playable(d);
                assert((c + 1) <= d < 7 && p.spec_playable(d));
            }
        }
    }
}

/// A position with no winning move and no non-losing move is lost on the
/// opponent's reply: whatever the mover plays, the opponent can win at
/// once, so the value is the worst the score range allows.
pub proof fn lemma_game_value_forced_loss(p: Position)
    requires
        p.wf(),
        p.get_moves_spec() < 42,
        !(exists|c: u64| c < 7 && p.spec_playable(c) && #[trigger] p.spec_winning_move(c)),
        p.spec_non_losing() == 0,
    ensures
        spec_game_value(p) == -(((42 - p.get_moves_spec()) / 2) as int),
{
    lemma_moves_bound(p);
    assert forall|d: u64| d < 7 && p.spec_playable(d) implies spec_game_value(
        #[trigger] p.spec_played(d),
    ) == (42 - p.get_moves_spec()) / 2 by {
        lemma_non_losing_exact(p, d);
        assert(0u64 & Position::spec_column_mask(d) == 0) by (bit_vector);
        lemma_played_wf(p, d);
        lemma_can_win_has_column(p.spec_played(d));
    }
    lemma_not_full_has_playable(p);
    lemma_best_reply_characterised(p, 0);
}

/// When the mover cannot win at once but a non-losing move exists, some
/// non-losing move achieves the game value: the pruning never discards
/// every optimal move.
pub proof fn lemma_game_value_in_non_losing(p: Position)
    requires
        p.wf(),
        p.get_moves_spec() < 42,
        !(exists|c: u64| c < 7 && p.spec_playable(c) && #[trigger] p.spec_winning_move(c)),
        p.spec_non_losing() != 0,
    ensures
        exists|c: u64|
            c < 7 && p.spec_non_losing() & #[trigger] Position::spec_column_mask(c) != 0
                && spec_game_value(p) == -spec_game_value(p.spec_played(c)),
{
    lemma_moves_bound(p);
    lemma_not_full_has_playable(p);
    lemma_best_reply_characterised(p, 0);
    let d = choose|d: u64|
        0 <= d < 7 && p.spec_playable(d) && spec_best_reply(p, 0) == -spec_game_value(
            #[trigger] p.spec_played(d),
        );
    if p.spec_non_losing() & Position::spec_column_mask(d) != 0 {
        assert(spec_game_value(p) == -spec_game_value(p.spec_played(d)));
    } else {
        // The best column was pruned, so its reply lets the opponent win at
        // once and the value is the worst possible; any non-losing column
        // achieves the same, since no reply scores lower
        lemma_non_losing_exact(p, d);
        lemma_played_wf(p, d);
        lemma_can_win_has_column(p.spec_played(d));
        assert(spec_game_value(p.spec_played(d)) == (42 - p.get_moves_spec()) / 2);

        lemma_non_losing_moves_are_possible(p);
        lemma_board_bits_have_column_non_losing(p);
        let e = choose|e: u64|
            e < 7 && p.spec_non_losing() & #[trigger] Position::spec_column_mask(e) != 0;
        lemma_subset_bit(p.spec_non_losing(), p.spec_possible(), Position::spec_column_mask(e));
        lemma_possible_column_playable(p, e);
        lemma_played_wf(p, e);
        lemma_game_value_range(p.spec_played(e));
        assert(spec_game_value(p) == -spec_game_value(p.spec_played(e)));
    }
}

/// The non-losing bitmap of a position within the board has its bits in
/// board columns.
proof fn lemma_board_bits_have_column_non_losing(p: Position)
    requires
        p.in_board(),
        p.spec_non_losing() != 0,
    ensures
        exists|c: u64|
            c < 7 && p.spec_non_losing() & #[trigger] Position::spec_column_mask(c) != 0,
{
    let pos = p.position;
    let mask = p.mask;
    assert(Position::spec_non_losing_words(pos, mask) & !0xfdfbf7efdfbfu64 == 0) by (bit_vector)
        requires
            mask & !0xfdfbf7efdfbfu64 == 0,
    ;
    lemma_board_bits_have_column(p.spec_non_losing());
}

/// Mirror symmetry of the game value: reflecting the columns of a position
/// does not change the score that perfect play yields.
pub proof fn lemma_game_value_mirror(p: Position)
    requires
        p.wf(),
    ensures
        spec_game_value(p.spec_mirrored()) == spec_game_value(p),
    decreases 42 - p.moves,
{
    lemma_moves_bound(p);
    lemma_mirrored_preserves_wf(p);
    let q = p.spec_mirrored();
    if p.moves >= 42 {
    } else {
        // Winning moves correspond across the reflection
        assert forall|c: u64| c < 7 && q.spec_playable(c) && #[trigger] q.spec_winning_move(c)
            implies (exists|c2: u64|
            c2 < 7 && p.spec_playable(c2) && #[trigger] p.spec_winning_move(c2)) by {
            lemma_playable_mirror(p.mask, c);
            lemma_winning_move_mirror(p, c);
            assert(p.spec_playable((6 - c) as u64) && p.spec_winning_move((6 - c) as u64));
        }
        assert forall|c: u64| c < 7 && p.spec_playable(c) && #[trigger] p.spec_winning_move(c)
            implies (exists|c2: u64|
            c2 < 7 && q.spec_playable(c2) && #[trigger] q.spec_winning_move(c2)) by {
            lemma_playable_mirror(p.mask, (6 - c) as u64);
            lemma_winning_move_mirror(p, (6 - c) as u64);
            assert(q.spec_playable((6 - c) as u64) && q.spec_winning_move((6 - c) as u64));
        }
        if exists|c: u64| c < 7 && p.spec_playable(c) && #[trigger] p.spec_winning_move(c) {
        } else {
            // The best replies correspond across the reflection
            lemma_not_full_has_playable(p);
            lemma_best_reply_characterised(p, 0);
            lemma_best_reply_characterised(q, 0);
            let d = choose|d: u64|
                0 <= d < 7 && p.spec_playable(d) && spec_best_reply(p, 0) == -spec_game_value(
                    #[trigger] p.spec_played(d),
                );
            lemma_playable_mirror(p.mask, (6 - d) as u64);
            lemma_played_mirror(p, (6 - d) as u64);
            lemma_played_wf(p, d);
            lemma_game_value_mirror(p.spec_played(d));
            assert(q.spec_playable((6 - d) as u64));
            assert(q.spec_played((6 - d) as u64) == p.spec_played(d).spec_mirrored());
            assert(spec_best_reply(q, 0) >= -spec_game_value(q.spec_played((6 - d) as u64)));
            assert(spec_best_reply(q, 0) >= spec_best_reply(p, 0));

            assert(exists|e: u64| 0 <= e < 7 && q.spec_playable(e));
            let e = choose|e: u64|
                0 <= e < 7 && q.spec_playable(e) && spec_best_reply(q, 0) == -spec_game_value(
                    #[trigger] q.spec_played(e),
                );
            lemma_playable_mirror(p.mask, e);
            lemma_played_mirror(p, e);
            lemma_played_wf(p, (6 - e) as u64);
            lemma_game_value_mirror(p.spec_played((6 - e) as u64));
            assert(q.spec_played(e) == p.spec_played((6 - e) as u64).spec_mirrored());
            assert(spec_best_reply(p, 0) >= -spec_game_value(p.spec_played((6 - e) as u64)));
            assert(spec_best_reply(p, 0) >= spec_best_reply(q, 0));
        }
    }
}

/// The canonical key determines the game value: two well-formed positions
/// sharing a canonical key are equal or mirror images, and mirroring does
/// not change the value.
pub proof fn lemma_key_determines_value(p: Position, q: Position)
    requires
        p.wf(),
        q.wf(),
        p.spec_key() == q.spec_key(),
    ensures
        spec_game_value(q) == spec_game_value(p),
{
    crate::position::lemma_canonical_key_identifies(p, q);
    if q == p.spec_mirrored() {
        lemma_game_value_mirror(p);
    }
}

/// A mover with no immediate win cannot reach the best score of the range:
/// the win takes at least two more of the mover's plies.
pub proof fn lemma_game_value_no_win_upper(p: Position)
    requires
        p.wf(),
        p.get_moves_spec() < 42,
        !(exists|c: u64| c < 7 && p.spec_playable(c) && #[trigger] p.spec_winning_move(c)),
    ensures
        spec_game_value(p) <= (41 - p.get_moves_spec()) / 2,
{
    lemma_moves_bound(p);
    lemma_not_full_has_playable(p);
    lemma_best_reply_characterised(p, 0);
    let d = choose|d: u64|
        0 <= d < 7 && p.spec_playable(d) && spec_best_reply(p, 0) == -spec_game_value(
            #[trigger] p.spec_played(d),
        );
    lemma_played_wf(p, d);
    lemma_game_value_range(p.spec_played(d));
}

/// With a non-losing move at hand and no immediate win, the mover cannot
/// lose on the opponent's next move: the opponent's win, if any, takes at
/// least two more of the opponent's plies.
pub proof fn lemma_game_value_non_losing_lower(p: Position)
    requires
        p.wf(),
        p.get_moves_spec() < 42,
        !(exists|c: u64| c < 7 && p.spec_playable(c) && #[trigger] p.spec_winning_move(c)),
        p.spec_non_losing() != 0,
    ensures
        p.get_moves_spec() <= 40 ==> spec_game_value(p) >= -(((40 - p.get_moves_spec())
            / 2) as int),
        p.get_moves_spec() == 41 ==> spec_game_value(p) >= 0,
{
    lemma_moves_bound(p);
    lemma_not_full_has_playable(p);
    lemma_best_reply_characterised(p, 0);
    lemma_non_losing_moves_are_possible(p);
    lemma_board_bits_have_column_non_losing(p);
    let e = choose|e: u64|
        e < 7 && p.spec_non_losing() & #[trigger] Position::spec_column_mask(e) != 0;
    lemma_subset_bit(p.spec_non_losing(), p.spec_possible(), Position::spec_column_mask(e));
    lemma_possible_column_playable(p, e);
    lemma_played_wf(p, e);
    let child = p.spec_played(e);
    // The chosen move is non-losing, so the opponent has no immediate win
    // in the reached position and cannot claim the best score of its range
    lemma_non_losing_exact(p, e);
    if exists|c: u64| c < 7 && child.spec_playable(c) && #[trigger] child.spec_winning_move(c) {
        let c = choose|c: u64|
            c < 7 && child.spec_playable(c) && #[trigger] child.spec_winning_move(c);
        lemma_winning_column_has_cell(child, c);
        assert(false);
    }
    if child.get_moves_spec() < 42 {
        lemma_game_value_no_win_upper(child);
    }
    assert(spec_game_value(p) >= -spec_game_value(child));
}

/// A winning move means the mover has a winning landing cell.
proof fn lemma_winning_column_has_cell(p: Position, c: u64)
    requires
        p.spec_winning_move(c),
    ensures
        Position::spec_winning_cells(p.position, p.mask) & p.spec_possible() != 0,
{
    let pos = p.position;
    let mask = p.mask;
    let x = Position::spec_winning_cells(pos, mask) & Position::spec_possible_words(mask);
    assert((x & Position::spec_column_mask(c) != 0) ==> x != 0) by (bit_vector)
        requires
            x == Position::spec_winning_cells(pos, mask) & Position::spec_possible_words(mask),
    ;
}

} // verus!
