use kitties::global::GlobalIndex;
use kitties::ownership::OwnershipIndex;
use kitties::table::AssetTable;
use kitties::{Error, Kitty};

#[test]
fn asset_table_insert_and_get() {
    let mut table = AssetTable::new();
    assert!(!table.contains(3));
    assert!(table.get(3).is_none());
    let kitty = Kitty { dna: vec![7; 16], generation: 0 };
    assert_eq!(table.insert(3, kitty), Ok(()));
    assert!(table.contains(3));
    let stored = table.get(3).unwrap();
    assert_eq!(stored.dna, vec![7; 16]);
    assert_eq!(stored.generation, 0);
}

#[test]
fn asset_table_refuses_duplicate_id() {
    let mut table = AssetTable::new();
    assert_eq!(table.insert(1, Kitty { dna: vec![0; 16], generation: 0 }), Ok(()));
    assert_eq!(
        table.insert(1, Kitty { dna: vec![1; 16], generation: 4 }),
        Err(Error::DuplicateAsset)
    );
    // The first record is untouched.
    assert_eq!(table.get(1).unwrap().dna, vec![0; 16]);
}

#[test]
fn global_index_records_in_order() {
    let mut index = GlobalIndex::new();
    assert_eq!(index.total_supply(), 0);
    assert_eq!(index.record(0), Ok(()));
    assert_eq!(index.record(1), Ok(()));
    assert_eq!(index.record(2), Ok(()));
    assert_eq!(index.total_supply(), 3);
    assert_eq!(index.asset_at(0), Some(0));
    assert_eq!(index.asset_at(2), Some(2));
    assert_eq!(index.asset_at(3), None);
}

#[test]
fn ownership_append_keeps_dense_positions() {
    let mut index = OwnershipIndex::new();
    index.append(5, 10);
    index.append(5, 11);
    index.append(5, 12);
    assert_eq!(index.count_of(5), 3);
    assert_eq!(index.asset_at(5, 0), Some(10));
    assert_eq!(index.asset_at(5, 1), Some(11));
    assert_eq!(index.asset_at(5, 2), Some(12));
    assert_eq!(index.asset_at(5, 3), None);
    assert_eq!(index.owner_of(11), Some(5));
    assert_eq!(index.owner_of(99), None);
}

#[test]
fn ownership_remove_swaps_last_into_slot() {
    let mut index = OwnershipIndex::new();
    index.append(5, 10);
    index.append(5, 11);
    index.append(5, 12);
    // Removing the middle entry moves the last one into its place.
    assert_eq!(index.remove_and_compact(5, 11), Ok(()));
    assert_eq!(index.count_of(5), 2);
    assert_eq!(index.asset_at(5, 0), Some(10));
    assert_eq!(index.asset_at(5, 1), Some(12));
    assert_eq!(index.owner_of(11), None);
    assert_eq!(index.owner_of(12), Some(5));
}

#[test]
fn ownership_remove_of_last_entry_needs_no_swap() {
    let mut index = OwnershipIndex::new();
    index.append(5, 10);
    index.append(5, 11);
    assert_eq!(index.remove_and_compact(5, 11), Ok(()));
    assert_eq!(index.count_of(5), 1);
    assert_eq!(index.asset_at(5, 0), Some(10));
    assert_eq!(index.owner_of(11), None);
}

#[test]
fn ownership_remove_refuses_wrong_owner() {
    let mut index = OwnershipIndex::new();
    index.append(5, 10);
    assert_eq!(index.remove_and_compact(6, 10), Err(Error::NotOwner));
    assert_eq!(index.remove_and_compact(5, 99), Err(Error::NotOwner));
    // Nothing changed.
    assert_eq!(index.count_of(5), 1);
    assert_eq!(index.asset_at(5, 0), Some(10));
    assert_eq!(index.owner_of(10), Some(5));
}
