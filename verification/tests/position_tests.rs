use connect_four_ai::{popcount, Position, PositionParsingError};

#[test]
fn new_position_is_empty() {
    let p = Position::new();
    assert_eq!(p.position, 0);
    assert_eq!(p.mask, 0);
    assert_eq!(p.get_moves(), 0);
    assert_eq!(popcount(p.possible()), 7);
}

#[test]
fn play_swaps_sides_and_counts_moves() {
    let mut p = Position::from_moves("44").unwrap();
    let before = p;
    p.play(2);
    assert_eq!(p.get_moves(), before.get_moves() + 1);
    // The mover's tiles become the complement of the previous mover's tiles
    // within the previously occupied cells, plus nothing else
    assert_eq!(p.position & before.mask, before.position ^ before.mask);
    // One new cell fills, at the bottom of the played column
    assert_eq!(p.mask & !before.mask, 1u64 << (2 * 7));
}

#[test]
fn from_moves_doc_example() {
    let p = Position::from_moves("444343533654").unwrap();
    assert_eq!(p.get_moves(), 12);
}

#[test]
fn from_moves_empty_string_gives_initial_position() {
    let p = Position::from_moves("").unwrap();
    assert_eq!(p.get_moves(), 0);
    assert_eq!(p.mask, 0);
}

#[test]
fn from_moves_rejects_non_digit() {
    assert_eq!(
        Position::from_moves("44x").unwrap_err(),
        PositionParsingError::InvalidCharacter { character: 'x', index: 2 }
    );
}

#[test]
fn from_moves_rejects_out_of_range_column() {
    assert_eq!(
        Position::from_moves("8").unwrap_err(),
        PositionParsingError::InvalidColumn { column: 8, index: 0 }
    );
    assert_eq!(
        Position::from_moves("49").unwrap_err(),
        PositionParsingError::InvalidColumn { column: 9, index: 1 }
    );
    assert_eq!(
        Position::from_moves("0").unwrap_err(),
        PositionParsingError::InvalidColumn { column: 0, index: 0 }
    );
}

#[test]
fn from_moves_rejects_full_column() {
    assert_eq!(
        Position::from_moves("4444444").unwrap_err(),
        PositionParsingError::InvalidFullColumnMove { column: 4, index: 6 }
    );
}

#[test]
fn from_moves_rejects_winning_move() {
    assert_eq!(
        Position::from_moves("4545454").unwrap_err(),
        PositionParsingError::InvalidWinningMove { column: 4, index: 6 }
    );
}

#[test]
fn full_column_is_not_playable() {
    let p = Position::from_moves("444444").unwrap();
    for col in 0..7 {
        assert_eq!(p.is_playable(col), col != 3);
    }
}

#[test]
fn possible_counts_non_full_columns() {
    let p = Position::from_moves("444444").unwrap();
    assert_eq!(popcount(p.possible()), 6);
    let q = Position::from_moves("44444422").unwrap();
    assert_eq!(popcount(q.possible()), 6);
}

#[test]
fn non_losing_moves_are_a_subset_of_possible() {
    for moves in ["", "44", "445544554171", "435261", "4455445541717722"] {
        let p = Position::from_moves(moves).unwrap();
        assert_eq!(p.possible_non_losing_moves() & !p.possible(), 0);
    }
}

#[test]
fn key_is_mirror_symmetric() {
    assert_eq!(
        Position::from_moves("1").unwrap().get_key(),
        Position::from_moves("7").unwrap().get_key()
    );
    assert_eq!(
        Position::from_moves("123").unwrap().get_key(),
        Position::from_moves("765").unwrap().get_key()
    );
    assert_eq!(
        Position::from_moves("445544554171").unwrap().get_key(),
        Position::from_moves("443344334717").unwrap().get_key()
    );
}

#[test]
fn key_is_the_smaller_of_plain_and_mirrored() {
    let p = Position::from_moves("12").unwrap();
    let plain = p.position + p.mask;
    let mirrored = p.get_mirrored_key();
    assert_eq!(p.get_key(), plain.min(mirrored));
    assert_ne!(plain, mirrored);
    let q = Position::from_moves("76").unwrap();
    assert_eq!(q.get_mirrored_key(), plain);
}

#[test]
fn keys_distinguish_different_positions() {
    let a = Position::from_moves("12").unwrap().get_key();
    let b = Position::from_moves("21").unwrap().get_key();
    assert_ne!(a, b);
}

#[test]
fn board_string_doc_example() {
    let board_string = "\
        .......\
        ...o...\
        ..xx...\
        ..ox...\
        ..oox..\
        ..oxxo.\
    ";
    let pos = Position::from_board_string(board_string).unwrap();
    assert_eq!(pos.get_moves(), 12);
}

#[test]
fn board_string_rejects_wrong_length() {
    assert_eq!(
        Position::from_board_string("...").unwrap_err(),
        PositionParsingError::InvalidBoardStringLength { actual: 3, expected: 42 }
    );
}

#[test]
fn board_string_ignores_other_characters_and_case() {
    let spaced = "....... ...O... ..Xx... ..ox... ..oox.. ..oxxo.";
    let plain = ".......\
...o...\
..xx...\
..ox...\
..oox..\
..oxxo.";
    let a = Position::from_board_string(spaced).unwrap();
    let b = Position::from_board_string(plain).unwrap();
    assert_eq!(a.position, b.position);
    assert_eq!(a.mask, b.mask);
    assert_eq!(a.get_moves(), b.get_moves());
}

#[test]
fn three_in_a_row_can_win_next() {
    // Bottom row holds the mover's three in a row in columns 2 to 4
    let board = "\
        .......\
        .......\
        .......\
        .......\
        ...oo..\
        ..xxx..\
    ";
    let p = Position::from_board_string(board).unwrap();
    assert!(p.can_win_next());
    for col in 0..7 {
        assert_eq!(p.is_winning_move(col), col == 1 || col == 5, "column {}", col);
    }
}

#[test]
fn won_position_is_detected() {
    let board = "\
        .......\
        .......\
        .......\
        .......\
        .ooo...\
        .xxxx..\
    ";
    let p = Position::from_board_string(board).unwrap();
    assert!(p.is_won_position());
    let q = Position::from_moves("445544554171").unwrap();
    assert!(!q.is_won_position());
}

#[test]
fn score_move_counts_created_threats() {
    // Extending two own pieces on the bottom row to a three in a row opens
    // one winning cell on each flank
    let board = "\
        .......\
        .......\
        .......\
        .......\
        ..oo...\
        ..xx...\
    ";
    let p = Position::from_board_string(board).unwrap();
    let move_bit = p.possible() & Position::column_mask(4);
    assert_eq!(p.score_move(move_bit), 2);
}
