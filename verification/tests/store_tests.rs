use light_client::store::{Status, Store};
use light_client::types::{Commit, Header, LightBlock, Validator, ValidatorSet};

fn block(height: u64) -> LightBlock {
    LightBlock {
        header: Header {
            height,
            time: height,
            validators_hash: 1,
            next_validators_hash: 1,
            app_hash: height * 2,
        },
        commit: Commit { signatures: vec![] },
        validators: ValidatorSet { validators: vec![Validator { id: 1, power: 5 }] },
        next_validators: ValidatorSet { validators: vec![Validator { id: 1, power: 5 }] },
    }
}

#[test]
fn insert_and_lookup_by_height() {
    let mut store = Store::new();
    store.insert(block(20)).unwrap();
    store.insert(block(10)).unwrap();
    store.insert(block(30)).unwrap();
    assert_eq!(store.len(), 3);
    assert_eq!(store.get(20).unwrap().header.height, 20);
    assert_eq!(store.status_of(10), Some(Status::Unverified));
    assert!(store.get(15).is_none());
    assert!(store.status_of(15).is_none());
}

#[test]
fn heights_enumerate_in_order() {
    let mut store = Store::new();
    store.insert(block(20)).unwrap();
    store.insert(block(10)).unwrap();
    store.insert(block(30)).unwrap();
    assert_eq!(store.heights(), vec![10, 20, 30]);
    assert_eq!(store.highest_height(), Some(30));
}

#[test]
fn reinserting_a_height_replaces_the_block() {
    let mut store = Store::new();
    store.insert(block(10)).unwrap();
    let mut other = block(10);
    other.header.app_hash = 999;
    store.insert(other).unwrap();
    assert_eq!(store.len(), 1);
    assert_eq!(store.get(10).unwrap().header.app_hash, 999);
}

#[test]
fn latest_with_status_finds_the_highest_match() {
    let mut store = Store::new();
    store.insert(block(10)).unwrap();
    store.insert(block(20)).unwrap();
    let found = store.latest_with_status(Status::Unverified).unwrap();
    assert_eq!(found.header.height, 20);
    assert!(store.latest_with_status(Status::Failed).is_none());
    assert!(store.latest_with_status(Status::Trusted).is_none());
}

#[test]
fn empty_store_has_no_highest_height() {
    let store = Store::new();
    assert_eq!(store.highest_height(), None);
    assert_eq!(store.len(), 0);
}
