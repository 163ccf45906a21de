use ic_task_scheduler::storage::{StableBTreeMap, StableCell};

#[derive(Clone, Copy, Debug, PartialEq)]
struct Tx {
    from: u64,
    to: u64,
    value: u64,
}

#[test]
fn should_init_tx_btreemap() {
    // at service start the store is seeded with one transaction at key 0
    let mut map: StableBTreeMap<Tx> = StableBTreeMap::new();
    map.insert(0, Tx { from: 0, to: 0, value: 0 }).unwrap();

    assert!(map.get(&0).is_some());
}

#[test]
fn should_push_tx_to_btreemap() {
    let mut map: StableBTreeMap<Tx> = StableBTreeMap::new();
    map.insert(1, Tx { from: 1, to: 1, value: 10 }).unwrap();

    assert!(map.get(&1).is_some());
}

#[test]
fn should_persist_btreemap_tx_after_upgrade() {
    let mut map: StableBTreeMap<Tx> = StableBTreeMap::new();
    map.insert(1, Tx { from: 1, to: 1, value: 10 }).unwrap();

    assert!(map.get(&1).is_some());

    // an upgrade rebuilds the store from its persisted records
    let persisted = map.list(0, map.len());
    let mut upgraded: StableBTreeMap<Tx> = StableBTreeMap::new();
    for (key, value) in persisted {
        upgraded.insert(key, value).unwrap();
    }

    assert!(upgraded.get(&1).is_some());
    assert_eq!(*upgraded.get(&1).unwrap(), Tx { from: 1, to: 1, value: 10 });
}

#[test]
fn insert_overwrites_existing_key() {
    let mut map: StableBTreeMap<u64> = StableBTreeMap::new();
    map.insert(5, 50).unwrap();
    map.insert(5, 51).unwrap();
    assert_eq!(map.len(), 1);
    assert_eq!(*map.get(&5).unwrap(), 51);
}

#[test]
fn insert_keeps_key_order() {
    let mut map: StableBTreeMap<u64> = StableBTreeMap::new();
    map.insert(8, 80).unwrap();
    map.insert(2, 20).unwrap();
    map.insert(5, 50).unwrap();
    assert_eq!(map.first_key(), Some(2));
    assert_eq!(map.last_key(), Some(8));
    assert_eq!(map.list(0, 3), vec![(2, 20), (5, 50), (8, 80)]);
}

#[test]
fn remove_returns_record_and_drops_it() {
    let mut map: StableBTreeMap<u64> = StableBTreeMap::new();
    map.insert(3, 30).unwrap();
    map.insert(4, 40).unwrap();
    assert_eq!(map.remove(&3), Some(30));
    assert_eq!(map.remove(&3), None);
    assert_eq!(map.len(), 1);
    assert!(map.get(&3).is_none());
    assert!(map.get(&4).is_some());
}

#[test]
fn empty_map_has_no_keys() {
    let map: StableBTreeMap<u64> = StableBTreeMap::new();
    assert!(map.is_empty());
    assert_eq!(map.first_key(), None);
    assert_eq!(map.last_key(), None);
}

#[test]
fn list_clamps_range() {
    let mut map: StableBTreeMap<u64> = StableBTreeMap::new();
    map.insert(1, 10).unwrap();
    map.insert(2, 20).unwrap();
    assert_eq!(map.list(1, 10), vec![(2, 20)]);
    assert_eq!(map.list(5, 10), vec![]);
    assert_eq!(map.list(0, 0), vec![]);
}

#[test]
fn cell_get_and_set() {
    let mut cell = StableCell::new(7u64).unwrap();
    assert_eq!(*cell.get(), 7);
    cell.set(9).unwrap();
    assert_eq!(*cell.get(), 9);
}
