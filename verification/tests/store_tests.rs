use ream_da::column::{ColumnContext, VerifiedColumn};
use ream_da::id::{ColumnId, Root, ALL_COLUMNS_MASK};
use ream_da::store::{BlockEntry, DaMemoryStore, InsertOutcome};

fn root(byte: u8) -> Root {
    Root([byte; 32])
}

fn column(r: u8, index: u64, slot: u64, payload: &[u8]) -> VerifiedColumn {
    VerifiedColumn::new_unchecked(
        ColumnId::new(root(r), index).unwrap(),
        ColumnContext { slot },
        payload.to_vec(),
    )
}

#[test]
fn empty_store_finds_nothing() {
    let store = DaMemoryStore::new();
    let id = ColumnId::new(root(1), 0).unwrap();
    assert!(store.get(&id).unwrap().is_none());
    assert_eq!(store.get_retention_floor(), 0);
    assert_eq!(store.block_count(), 0);
    let availability = store.availability(root(1)).unwrap();
    assert_eq!(availability.held(), 0);
    assert_eq!(availability.expected(), ALL_COLUMNS_MASK);
    assert_eq!(availability.missing(), (0..128).collect::<Vec<u64>>());
}

#[test]
fn put_then_get_returns_the_column() {
    let mut store = DaMemoryStore::new();
    assert_eq!(store.put(column(1, 4, 10, &[9, 8])).unwrap(), InsertOutcome::Inserted);
    let id = ColumnId::new(root(1), 4).unwrap();
    let got = store.get(&id).unwrap().unwrap();
    assert_eq!(got.id(), id);
    assert_eq!(got.context().slot, 10);
    assert_eq!(got.payload(), &[9, 8]);
    assert!(store.get(&ColumnId::new(root(1), 5).unwrap()).unwrap().is_none());
    assert!(store.get(&ColumnId::new(root(2), 4).unwrap()).unwrap().is_none());
}

#[test]
fn second_put_of_a_column_keeps_the_first() {
    let mut store = DaMemoryStore::new();
    store.put(column(1, 4, 10, &[1])).unwrap();
    assert_eq!(store.put(column(1, 4, 10, &[2])).unwrap(), InsertOutcome::Duplicated);
    let got = store.get(&ColumnId::new(root(1), 4).unwrap()).unwrap().unwrap();
    assert_eq!(got.payload(), &[1]);
}

#[test]
fn block_slot_is_fixed_by_its_first_column() {
    let mut store = DaMemoryStore::new();
    store.put(column(1, 0, 10, &[1])).unwrap();
    assert_eq!(store.put(column(1, 1, 20, &[2])).unwrap(), InsertOutcome::Inserted);
    let got = store.get(&ColumnId::new(root(1), 1).unwrap()).unwrap().unwrap();
    assert_eq!(got.context().slot, 10);
    assert_eq!(store.block_count(), 1);
}

#[test]
fn put_below_the_floor_is_refused() {
    let mut store = DaMemoryStore::new();
    assert_eq!(store.prune_below_slot(50).unwrap(), 0);
    assert_eq!(store.put(column(1, 0, 49, &[1])).unwrap(), InsertOutcome::BelowRetention);
    assert!(store.get(&ColumnId::new(root(1), 0).unwrap()).unwrap().is_none());
    assert_eq!(store.put(column(1, 0, 50, &[1])).unwrap(), InsertOutcome::Inserted);
}

#[test]
fn availability_marks_the_held_columns() {
    let mut store = DaMemoryStore::new();
    store.put(column(1, 0, 10, &[1])).unwrap();
    store.put(column(1, 3, 10, &[1])).unwrap();
    store.put(column(1, 127, 10, &[1])).unwrap();
    store.put(column(2, 1, 10, &[1])).unwrap();
    let availability = store.availability(root(1)).unwrap();
    assert_eq!(availability.held(), 1 | (1 << 3) | (1u128 << 127));
    assert_eq!(availability.expected(), ALL_COLUMNS_MASK);
    let missing = availability.missing();
    assert_eq!(missing.len(), 125);
    assert!(!missing.contains(&0) && !missing.contains(&3) && !missing.contains(&127));
    assert!(missing.contains(&1) && missing.contains(&126));
}

#[test]
fn prune_removes_older_blocks_and_counts_their_columns() {
    let mut store = DaMemoryStore::new();
    store.put(column(1, 0, 10, &[1])).unwrap();
    store.put(column(1, 1, 10, &[1])).unwrap();
    store.put(column(2, 0, 20, &[1])).unwrap();
    store.put(column(3, 0, 30, &[1])).unwrap();
    store.put(column(3, 5, 30, &[1])).unwrap();
    assert_eq!(store.prune_below_slot(21).unwrap(), 3);
    assert_eq!(store.get_retention_floor(), 21);
    assert!(store.is_below_retention(20));
    assert!(!store.is_below_retention(21));
    assert!(store.get(&ColumnId::new(root(1), 0).unwrap()).unwrap().is_none());
    assert!(store.get(&ColumnId::new(root(2), 0).unwrap()).unwrap().is_none());
    assert!(store.get(&ColumnId::new(root(3), 5).unwrap()).unwrap().is_some());
    assert_eq!(store.block_count(), 1);
}

#[test]
fn prune_below_the_floor_changes_nothing() {
    let mut store = DaMemoryStore::new();
    store.put(column(1, 0, 10, &[1])).unwrap();
    assert_eq!(store.prune_below_slot(5).unwrap(), 0);
    assert_eq!(store.prune_below_slot(3).unwrap(), 0);
    assert_eq!(store.get_retention_floor(), 5);
    assert!(store.get(&ColumnId::new(root(1), 0).unwrap()).unwrap().is_some());
}

#[test]
fn prune_twice_at_one_slot_removes_nothing_the_second_time() {
    let mut store = DaMemoryStore::new();
    store.put(column(1, 0, 10, &[1])).unwrap();
    assert_eq!(store.prune_below_slot(11).unwrap(), 1);
    assert_eq!(store.prune_below_slot(11).unwrap(), 0);
}

#[test]
fn block_entry_without_columns_holds_nothing() {
    let entry = BlockEntry::default();
    assert_eq!(entry.held(), 0);
}
