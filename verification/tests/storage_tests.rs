use budlum::{Block, Storage, Transaction};

fn block(index: u64, previous: &str) -> Block {
    let txs = vec![Transaction::with_timestamp(
        "a".to_string(),
        "b".to_string(),
        index,
        vec![],
        index as u128,
    )];
    Block::with_timestamp(index, 100 + index as u128, previous.to_string(), txs)
}

#[test]
fn empty_store_has_no_tip_and_no_blocks() {
    let store = Storage::new();
    assert_eq!(store.len(), 0);
    assert_eq!(store.get_last_hash(), None);
    assert_eq!(store.get_block(&"missing".to_string()), None);
    assert!(store.records().is_empty());
}

#[test]
fn stored_block_is_found_by_its_hash() {
    let mut store = Storage::new();
    let first = block(1, "x");
    let second = block(2, "y");
    store.insert_block(&first);
    store.insert_block(&second);
    assert_eq!(store.len(), 2);
    assert_eq!(store.get_block(&first.hash), Some(first.clone()));
    assert_eq!(store.get_block(&second.hash), Some(second));
    assert_eq!(store.get_block(&"missing".to_string()), None);
}

#[test]
fn storing_the_same_block_again_changes_nothing() {
    let mut store = Storage::new();
    let first = block(1, "x");
    store.insert_block(&first);
    store.insert_block(&first);
    assert_eq!(store.len(), 1);
    assert_eq!(store.get_block(&first.hash), Some(first));
}

#[test]
fn storing_under_a_taken_key_overwrites() {
    let mut store = Storage::new();
    let first = block(1, "x");
    let mut other = block(2, "y");
    other.hash = first.hash.clone();
    store.insert_block(&first);
    store.insert_block(&other);
    assert_eq!(store.len(), 1);
    assert_eq!(store.get_block(&first.hash), Some(other));
}

#[test]
fn storing_a_block_leaves_the_tip() {
    let mut store = Storage::new();
    store.save_last_hash(&"tip".to_string());
    store.insert_block(&block(1, "x"));
    assert_eq!(store.get_last_hash(), Some("tip".to_string()));
}

#[test]
fn saving_the_tip_overwrites_it_and_leaves_the_blocks() {
    let mut store = Storage::new();
    let first = block(1, "x");
    store.insert_block(&first);
    store.save_last_hash(&"one".to_string());
    store.save_last_hash(&"two".to_string());
    assert_eq!(store.get_last_hash(), Some("two".to_string()));
    assert_eq!(store.len(), 1);
    assert_eq!(store.get_block(&first.hash), Some(first));
}

#[test]
fn records_come_in_the_order_of_first_storing() {
    let mut store = Storage::new();
    let first = block(1, "x");
    let second = block(2, "y");
    store.insert_block(&first);
    store.insert_block(&second);
    store.insert_block(&first);
    assert_eq!(store.records(), &vec![first, second]);
}

#[test]
fn cloned_store_holds_the_same_records() {
    let mut store = Storage::new();
    let first = block(1, "x");
    store.insert_block(&first);
    store.save_last_hash(&first.hash);
    let copy = store.clone();
    assert_eq!(copy.len(), 1);
    assert_eq!(copy.get_block(&first.hash), Some(first.clone()));
    assert_eq!(copy.get_last_hash(), Some(first.hash));
}
