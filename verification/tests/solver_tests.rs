use connect_four_ai::{OpeningBook, OpeningBookGenerator, Position, Solver};

#[test]
fn immediate_win_scores_by_remaining_plies() {
    // The mover completes a vertical four at once, on the seventh ply:
    // the score is half the free cells plus one
    let p = Position::from_moves("454545").unwrap();
    let mut solver = Solver::empty();
    assert_eq!(solver.solve(&p), 18);
}

#[test]
fn solve_ten_ply_position() {
    let p = Position::from_moves("4455445541").unwrap();
    let mut solver = Solver::empty();
    assert_eq!(solver.solve(&p), 15);
}

#[test]
fn best_reply_negates_the_score() {
    // A move's score entry is the negated score of the reached position
    let p = Position::from_moves("4455445541717722").unwrap();
    let mut solver = Solver::empty();
    let scores = solver.get_all_move_scores(&p);
    assert!(!p.is_winning_move(0));
    assert_eq!(scores[0], Some(12));
    let mut child = p;
    child.play(0);
    solver.reset();
    assert_eq!(solver.solve(&child), -12);
}

#[test]
fn solve_ten_ply_position_and_its_mirror() {
    let p = Position::from_moves("4455454221").unwrap();
    let mirrored = Position::from_moves("4433434667").unwrap();
    assert_eq!(p.get_key(), mirrored.get_key());
    let mut solver = Solver::empty();
    assert_eq!(solver.solve(&p), 15);
    solver.reset();
    assert_eq!(solver.solve(&mirrored), 15);
}

#[test]
fn solve_twelve_ply_position() {
    let p = Position::from_moves("445544554171").unwrap();
    let mut solver = Solver::empty();
    assert_eq!(solver.solve(&p), 15);
}

#[test]
fn solve_sixteen_ply_position() {
    let p = Position::from_moves("4455445541717722").unwrap();
    let mut solver = Solver::empty();
    assert_eq!(solver.solve(&p), 13);
}

#[test]
fn solve_is_mirror_symmetric() {
    let p = Position::from_moves("445544554171").unwrap();
    let mirrored = Position::from_moves("443344334717").unwrap();
    let mut solver = Solver::empty();
    let a = solver.solve(&p);
    solver.reset();
    let b = solver.solve(&mirrored);
    assert_eq!(a, b);
    assert_eq!(a, 15);
}

#[test]
fn move_scores_match_reference_values() {
    let p = Position::from_moves("4455445541717722").unwrap();
    let mut solver = Solver::empty();
    let scores = solver.get_all_move_scores(&p);
    let expected = [
        Some(12),
        Some(12),
        Some(13),
        Some(12),
        Some(12),
        Some(13),
        Some(12),
    ];
    assert_eq!(scores, expected.to_vec());
}

#[test]
fn solve_equals_best_move_score() {
    let p = Position::from_moves("4455445541717722").unwrap();
    let mut solver = Solver::empty();
    let scores = solver.get_all_move_scores(&p);
    let best = scores.iter().flatten().max().copied().unwrap();
    solver.reset();
    assert_eq!(solver.solve(&p), best);
}

#[test]
fn move_scores_mark_full_columns_none() {
    let p = Position::from_moves("44554455417177224").unwrap();
    assert!(!p.is_playable(3));
    let mut solver = Solver::empty();
    let scores = solver.get_all_move_scores(&p);
    let expected = [
        Some(-12),
        Some(-12),
        Some(-12),
        None,
        Some(-12),
        Some(-12),
        Some(-12),
    ];
    assert_eq!(scores, expected.to_vec());
}

#[test]
fn won_position_has_no_move_scores() {
    let board = "\
        .......\
        .......\
        .......\
        .......\
        .ooo...\
        .xxxx..\
    ";
    let p = Position::from_board_string(board).unwrap();
    assert!(p.is_won_position());
    let mut solver = Solver::empty();
    let scores = solver.get_all_move_scores(&p);
    assert_eq!(scores, vec![None; 7]);
}

#[test]
fn book_lookup_short_circuits_the_search() {
    let p = Position::from_moves("445544554171").unwrap();
    let mut book = OpeningBook::new();
    book.insert(p.get_key(), 15);
    let mut with_book = Solver::empty();
    with_book.opening_book = Some(book);
    assert_eq!(with_book.solve(&p), 15);
    assert_eq!(with_book.explored_positions, 0);
    let mut without_book = Solver::empty();
    assert_eq!(without_book.solve(&p), 15);
    assert!(without_book.explored_positions > 0);
}

#[test]
fn generated_book_matches_fresh_solves() {
    // Every entry of a generated book agrees with a bookless solver run on
    // the position that produced its key
    let base = Position::from_moves("4455445541717722").unwrap();
    let book = OpeningBookGenerator::generate_from(&base, 1);
    let mut fresh = Solver::empty();
    assert_eq!(book.get(&base), Some(13));
    let mut checked = 0;
    for col in 0..7 {
        if !base.is_playable(col) || base.is_winning_move(col) {
            continue;
        }
        let mut child = base;
        child.play(col);
        if child.is_won_position() {
            continue;
        }
        fresh.reset();
        let expected = fresh.solve(&child);
        assert_eq!(book.get(&child), Some(expected));
        checked += 1;
        if checked == 2 {
            break;
        }
    }
    assert!(checked > 0);
}
