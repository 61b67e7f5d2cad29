use connect_four_ai::MoveSorter;

#[test]
fn empty_sorter_yields_nothing() {
    let mut sorter = MoveSorter::new();
    assert_eq!(sorter.next(), None);
}

#[test]
fn moves_pop_in_descending_score_order() {
    let mut sorter = MoveSorter::new();
    sorter.add(0, 5);
    sorter.add(1, 3);
    sorter.add(2, 9);
    sorter.add(3, 7);
    assert_eq!(sorter.next(), Some(2));
    assert_eq!(sorter.next(), Some(3));
    assert_eq!(sorter.next(), Some(0));
    assert_eq!(sorter.next(), Some(1));
    assert_eq!(sorter.next(), None);
}

#[test]
fn later_inserted_ties_pop_first() {
    let mut sorter = MoveSorter::new();
    sorter.add(4, 2);
    sorter.add(5, 2);
    sorter.add(6, 2);
    assert_eq!(sorter.next(), Some(6));
    assert_eq!(sorter.next(), Some(5));
    assert_eq!(sorter.next(), Some(4));
    assert_eq!(sorter.next(), None);
}

#[test]
fn sorter_holds_a_full_board_of_moves() {
    let mut sorter = MoveSorter::new();
    for col in 0..7 {
        sorter.add(col, col as u8);
    }
    for col in (0..7).rev() {
        assert_eq!(sorter.next(), Some(col));
    }
    assert_eq!(sorter.next(), None);
}
