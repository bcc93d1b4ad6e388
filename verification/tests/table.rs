use je_bot::transposition::{Bound, TTEntry, TranspositionTable};

fn entry(value: i32, depth: u16) -> TTEntry {
    TTEntry { value, best_move: None, depth, bound: Bound::Exact }
}

#[test]
fn a_new_table_is_empty() {
    let table = TranspositionTable::new();
    assert!(table.lookup(0).is_none());
    assert!(table.lookup(0x463b_9618_1691_fc9c).is_none());
    assert!(table.table.is_empty());
}

#[test]
fn a_new_key_is_always_stored() {
    let mut table = TranspositionTable::new();
    table.store(7, entry(11, 0));
    let found = table.lookup(7).expect("an entry");
    assert_eq!(found.value, 11);
    assert_eq!(found.depth, 0);
    table.store(8, entry(12, 3));
    assert_eq!(table.lookup(8).expect("an entry").value, 12);
    assert_eq!(table.lookup(7).expect("an entry").value, 11);
    assert!(table.lookup(9).is_none());
    assert_eq!(table.table.len(), 2);
}

#[test]
fn a_deeper_entry_replaces() {
    let mut table = TranspositionTable::new();
    table.store(7, entry(11, 2));
    table.store(7, TTEntry { value: 12, best_move: None, depth: 3, bound: Bound::LowerBound });
    let found = table.lookup(7).expect("an entry");
    assert_eq!(found.value, 12);
    assert_eq!(found.depth, 3);
    assert_eq!(found.bound, Bound::LowerBound);
    assert_eq!(table.table.len(), 1);
}

#[test]
fn an_equal_depth_keeps_the_older_entry() {
    let mut table = TranspositionTable::new();
    table.store(7, entry(11, 2));
    table.store(7, entry(12, 2));
    assert_eq!(table.lookup(7).expect("an entry").value, 11);
    table.store(9, entry(1, 0));
    table.store(9, entry(2, 0));
    assert_eq!(table.lookup(9).expect("an entry").value, 1);
}

#[test]
fn a_shallower_entry_is_dropped() {
    let mut table = TranspositionTable::new();
    table.store(7, entry(11, 5));
    table.store(7, entry(12, 4));
    table.store(7, entry(13, 0));
    let found = table.lookup(7).expect("an entry");
    assert_eq!(found.value, 11);
    assert_eq!(found.depth, 5);
}

#[test]
fn the_depth_is_the_greatest_ever_stored() {
    let mut table = TranspositionTable::new();
    let depths: [u16; 9] = [3, 1, 4, 1, 5, 9, 2, 6, 5];
    let mut greatest = 0;
    for (i, depth) in depths.iter().enumerate() {
        table.store(42, entry(i as i32, *depth));
        table.store(43, entry(i as i32, 9 - *depth));
        greatest = greatest.max(*depth);
        assert_eq!(table.lookup(42).expect("an entry").depth, greatest);
    }
    assert_eq!(table.lookup(42).expect("an entry").depth, 9);
    assert_eq!(table.lookup(42).expect("an entry").value, 5);
    assert_eq!(table.lookup(43).expect("an entry").depth, 8);
    assert_eq!(table.lookup(43).expect("an entry").value, 1);
}

#[test]
fn keys_do_not_disturb_each_other() {
    let mut table = TranspositionTable::new();
    for key in 0..200u64 {
        table.store(key.wrapping_mul(0x9e37_79b9_7f4a_7c15), entry(key as i32, (key % 7) as u16));
    }
    for key in 0..200u64 {
        let found = table.lookup(key.wrapping_mul(0x9e37_79b9_7f4a_7c15)).expect("an entry");
        assert_eq!(found.value, key as i32);
        assert_eq!(found.depth, (key % 7) as u16);
    }
    assert_eq!(table.table.len(), 200);
}

#[test]
fn the_greatest_depth_can_be_stored() {
    let mut table = TranspositionTable::new();
    table.store(1, entry(1, u16::MAX));
    table.store(1, entry(2, u16::MAX));
    assert_eq!(table.lookup(1).expect("an entry").value, 1);
    assert_eq!(table.lookup(1).expect("an entry").depth, u16::MAX);
}
