use connect_four_ai::{TTFlag, TranspositionTable};

#[test]
fn put_then_get_round_trips() {
    let mut tt = TranspositionTable::new();
    tt.put(0xdeadbeef1234, 7, TTFlag::Exact, 20);
    let entry = tt.get(0xdeadbeef1234).expect("entry should be found");
    assert_eq!(entry.value, 7);
    assert_eq!(entry.flag, TTFlag::Exact);
    assert_eq!(entry.depth, 20);
}

#[test]
fn fresh_table_finds_nothing() {
    // All slots start blank, so any key with a non-zero low half misses
    let tt = TranspositionTable::new();
    assert!(tt.get(12345).is_none());
    assert!(tt.get(0xdeadbeef).is_none());
}

#[test]
fn get_of_missing_key_is_none() {
    let mut tt = TranspositionTable::new();
    tt.put(42, -3, TTFlag::LowerBound, 5);
    // A key with a different low half misses even in the same bucket
    assert!(tt.get(42 + 8388617).is_none());
    assert!(tt.get(43).is_none());
}

#[test]
fn index_reduces_key_modulo_table_size() {
    let tt = TranspositionTable::new();
    assert_eq!(tt.index(8388617), 0);
    assert_eq!(tt.index(8388618), 1);
    assert_eq!(tt.index(123), 123);
}

#[test]
fn reset_invalidates_entries() {
    let mut tt = TranspositionTable::new();
    tt.put(99, 11, TTFlag::UpperBound, 9);
    tt.reset();
    assert!(tt.get(99).is_none());
}

#[test]
fn age_wraps_after_256_resets() {
    // The generation counter is a byte: after 256 resets an old entry
    // becomes visible again; the key check still guards it
    let mut tt = TranspositionTable::new();
    tt.put(7, 3, TTFlag::Exact, 4);
    for _ in 0..256 {
        tt.reset();
    }
    let entry = tt.get(7).expect("entry revalidates after the age wraps");
    assert_eq!(entry.value, 3);
}
