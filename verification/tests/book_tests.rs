use connect_four_ai::{BookDecodeError, OpeningBook, Position};

#[test]
fn empty_book_finds_nothing() {
    let book = OpeningBook::new();
    let p = Position::new();
    assert_eq!(book.get(&p), None);
}

#[test]
fn inserted_scores_are_found() {
    let mut book = OpeningBook::new();
    let p = Position::from_moves("44").unwrap();
    book.insert(p.get_key(), -3);
    assert_eq!(book.get(&p), Some(-3));
    assert!(book.contains(p.get_key()));
    assert!(!book.contains(p.get_key().wrapping_add(1)));
}

#[test]
fn lookup_answers_for_the_mirror_image() {
    // Stored keys are canonical, so the mirror position finds the entry
    let mut book = OpeningBook::new();
    let left = Position::from_moves("12").unwrap();
    let right = Position::from_moves("76").unwrap();
    book.insert(left.get_key(), 5);
    assert_eq!(book.get(&right), Some(5));
}

#[test]
fn serialisation_round_trips() {
    let mut book = OpeningBook::new();
    book.insert(17, -8);
    book.insert(0xfedcba9876543210, 4);
    book.insert(3, 0);
    let bytes = book.to_bytes();
    let reloaded = OpeningBook::from_static_bytes(&bytes).unwrap();
    assert_eq!(reloaded.map.len(), 3);
    assert_eq!(reloaded.map.get(&17).copied(), Some(-8));
    assert_eq!(reloaded.map.get(&0xfedcba9876543210).copied(), Some(4));
    assert_eq!(reloaded.map.get(&3).copied(), Some(0));
    // A second round keeps the bytes identical
    assert_eq!(reloaded.to_bytes(), bytes);
}

#[test]
fn empty_book_round_trips() {
    let book = OpeningBook::new();
    let bytes = book.to_bytes();
    assert_eq!(bytes.len(), 8);
    let reloaded = OpeningBook::from_static_bytes(&bytes).unwrap();
    assert!(reloaded.map.is_empty());
}

#[test]
fn truncated_buffer_is_rejected() {
    assert_eq!(
        OpeningBook::from_static_bytes(&[1, 2, 3]).unwrap_err(),
        BookDecodeError::LengthMismatch
    );
    let mut book = OpeningBook::new();
    book.insert(5, 5);
    let mut bytes = book.to_bytes();
    bytes.pop();
    assert!(OpeningBook::from_static_bytes(&bytes).is_err());
}

#[test]
fn trailing_bytes_are_rejected() {
    let mut book = OpeningBook::new();
    book.insert(5, 5);
    let mut bytes = book.to_bytes();
    bytes.push(0);
    assert_eq!(
        OpeningBook::from_static_bytes(&bytes).unwrap_err(),
        BookDecodeError::LengthMismatch
    );
}

#[test]
fn out_of_range_score_is_rejected() {
    // One record whose score byte says 100: outside the score domain
    let mut bytes = vec![1, 0, 0, 0, 0, 0, 0, 0];
    bytes.extend_from_slice(&[9, 0, 0, 0, 0, 0, 0, 0]);
    bytes.push(100);
    assert_eq!(
        OpeningBook::from_static_bytes(&bytes).unwrap_err(),
        BookDecodeError::ScoreOutOfRange
    );
}

#[test]
fn score_outside_the_keys_range_is_rejected() {
    // Key 0x7e encodes a six-piece column, so its position has at most 36
    // free cells and a score of 21 is impossible for it, though it lies
    // within the overall score domain
    let mut bytes = vec![1, 0, 0, 0, 0, 0, 0, 0];
    bytes.extend_from_slice(&[0x7e, 0, 0, 0, 0, 0, 0, 0]);
    bytes.push(21);
    assert_eq!(
        OpeningBook::from_static_bytes(&bytes).unwrap_err(),
        BookDecodeError::ScoreOutOfRange
    );
    // The same record with a score the key admits decodes fine
    let mut good = vec![1, 0, 0, 0, 0, 0, 0, 0];
    good.extend_from_slice(&[0x7e, 0, 0, 0, 0, 0, 0, 0]);
    good.push(18);
    let book = OpeningBook::from_static_bytes(&good).unwrap();
    assert_eq!(book.map.get(&0x7e).copied(), Some(18));
}

#[test]
fn duplicate_keys_are_rejected() {
    let mut bytes = vec![2, 0, 0, 0, 0, 0, 0, 0];
    bytes.extend_from_slice(&[9, 0, 0, 0, 0, 0, 0, 0]);
    bytes.push(1);
    bytes.extend_from_slice(&[9, 0, 0, 0, 0, 0, 0, 0]);
    bytes.push(2);
    assert_eq!(
        OpeningBook::from_static_bytes(&bytes).unwrap_err(),
        BookDecodeError::DuplicateKey
    );
}
