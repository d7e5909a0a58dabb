//! The collection and shadow-table adapters, exercised directly.

use std::collections::{BTreeMap, HashMap, VecDeque};

use lockerroom::collection::{Collection, ShadowLocksCollection};
use lockerroom::LockState;

#[test]
fn vec_collection_contract() {
    let mut v: Vec<u64> = vec![10, 20, 30];
    assert_eq!(Some(&20), Collection::index(&v, &1));
    assert_eq!(None, Collection::index(&v, &3));
    assert!(v.store(&1, 21));
    assert!(!v.store(&9, 99));
    assert_eq!(vec![10, 21, 30], v);
    assert_eq!(vec![0, 1, 2], Collection::indices(&v));
    let locks = Collection::shadow_locks(&v);
    assert_eq!(vec![LockState::Unlocked; 3], locks);
}

#[test]
fn vec_shadow_locks_reconcile_positionally() {
    let mut locks: Vec<LockState> = vec![LockState::Unlocked; 4];
    assert!(locks.set_state(&2, LockState::Exclusive));
    assert!(!locks.set_state(&4, LockState::Exclusive));
    assert_eq!(
        Some(LockState::Exclusive),
        ShadowLocksCollection::index(&locks, &2)
    );
    assert_eq!(None, ShadowLocksCollection::index(&locks, &7));

    // Positional reconciliation keeps states by position up to the shorter
    // length and seeds fresh unlocked locks beyond.
    locks.update_indices(&vec![0, 1, 2, 3, 4, 5]);
    assert_eq!(Some(LockState::Exclusive), ShadowLocksCollection::index(&locks, &2));
    assert_eq!(Some(LockState::Unlocked), ShadowLocksCollection::index(&locks, &5));

    locks.update_indices(&vec![0, 1]);
    assert_eq!(None, ShadowLocksCollection::index(&locks, &2));
    assert_eq!(2, locks.len());
}

#[test]
fn array_collection_contract() {
    let mut a: [u64; 4] = [1, 2, 3, 4];
    assert_eq!(Some(&3), Collection::index(&a, &2));
    assert_eq!(None, Collection::index(&a, &4));
    assert!(a.store(&2, 33));
    assert!(!a.store(&4, 44));
    assert_eq!([1, 2, 33, 4], a);
    assert_eq!(vec![0, 1, 2, 3], Collection::indices(&a));
    let locks = Collection::shadow_locks(&a);
    assert_eq!(vec![LockState::Unlocked; 4], locks);
}

#[test]
fn deque_collection_contract() {
    let mut d: VecDeque<u64> = VecDeque::from(vec![5, 6, 7]);
    assert_eq!(Some(&6), Collection::index(&d, &1));
    assert_eq!(None, Collection::index(&d, &3));
    assert!(d.store(&0, 50));
    assert!(!d.store(&3, 80));
    assert_eq!(VecDeque::from(vec![50, 6, 7]), d);
    assert_eq!(vec![0, 1, 2], Collection::indices(&d));

    let mut locks = Collection::shadow_locks(&d);
    assert_eq!(
        Some(LockState::Unlocked),
        ShadowLocksCollection::index(&locks, &2)
    );
    assert!(locks.set_state(&1, LockState::Shared(3)));
    assert_eq!(
        Some(LockState::Shared(3)),
        ShadowLocksCollection::index(&locks, &1)
    );
    // Positional reconciliation on the deque table keeps states by position.
    locks.update_indices(&vec![0, 1, 2, 3]);
    assert_eq!(
        Some(LockState::Shared(3)),
        ShadowLocksCollection::index(&locks, &1)
    );
    assert_eq!(
        Some(LockState::Unlocked),
        ShadowLocksCollection::index(&locks, &3)
    );
    locks.update_indices(&vec![0]);
    assert_eq!(None, ShadowLocksCollection::index(&locks, &1));
}

/// The engine protects a deque like any other positional collection.
#[test]
fn deque_engine_round_trip() {
    let d: VecDeque<u64> = VecDeque::from(vec![10, 20]);
    let mut lr = lockerroom::LockerRoom::new(d);
    let w = lr.write_cell(0).acquired();
    lr.set_cell(&w, 11);
    lr.release_write(w);
    assert!(lr.read_cell(2).is_absent());
    let mut rg = lr.lock_room().expect("room should be free");
    rg.collection_mut().push_front(9);
    lr.release_room(rg);
    let g = lr.read_cell(0).acquired();
    assert_eq!(9, *lr.read_value(&g));
    lr.release_read(g);
    assert_eq!(VecDeque::from(vec![9, 11, 20]), lr.into_inner());
}

/// The engine protects a fixed-size array; its key set never changes.
#[test]
fn array_engine_cells() {
    let a: [u64; 3] = [1, 2, 3];
    let mut lr = lockerroom::LockerRoom::new(a);
    let g1 = lr.read_cell(1).acquired();
    let g2 = lr.read_cell(1).acquired();
    assert_eq!(2, *lr.read_value(&g1));
    assert_eq!(2, *lr.read_value(&g2));
    assert!(lr.write_cell(1).is_blocked());
    lr.release_read(g1);
    lr.release_read(g2);
    let w = lr.write_cell(1).acquired();
    lr.set_cell(&w, 22);
    lr.release_write(w);
    assert!(lr.read_cell(3).is_absent());
    let rg = lr.lock_room().expect("room should be free");
    lr.release_room(rg);
    assert_eq!([1, 22, 3], lr.into_inner());
}

#[test]
fn hash_map_collection_contract() {
    let mut m: HashMap<u64, u64> = HashMap::new();
    m.insert(8, 80);
    m.insert(9, 90);
    assert_eq!(Some(&80), Collection::index(&m, &8));
    assert_eq!(None, Collection::index(&m, &1));
    assert!(m.store(&9, 91));
    assert!(!m.store(&1, 11));
    assert_eq!(Some(&91), m.get(&9));

    let mut keys = Collection::indices(&m);
    keys.sort();
    assert_eq!(vec![8, 9], keys);

    let locks = Collection::shadow_locks(&m);
    assert_eq!(Some(LockState::Unlocked), ShadowLocksCollection::index(&locks, &8));
    assert_eq!(Some(LockState::Unlocked), ShadowLocksCollection::index(&locks, &9));
    assert_eq!(None, ShadowLocksCollection::index(&locks, &1));
}

#[test]
fn hash_map_shadow_locks_reconcile_by_key() {
    let mut locks: HashMap<u64, LockState> = HashMap::new();
    locks.insert(1, LockState::Shared(2));
    locks.insert(2, LockState::Unlocked);

    // Keyed reconciliation rebuilds the table with fresh unlocked locks.
    locks.update_indices(&vec![2, 3]);
    assert_eq!(None, ShadowLocksCollection::index(&locks, &1));
    assert_eq!(Some(LockState::Unlocked), ShadowLocksCollection::index(&locks, &2));
    assert_eq!(Some(LockState::Unlocked), ShadowLocksCollection::index(&locks, &3));
    assert_eq!(2, locks.len());
}

#[test]
fn btree_map_collection_contract() {
    let mut m: BTreeMap<u64, u64> = BTreeMap::new();
    m.insert(5, 50);
    m.insert(3, 30);
    assert_eq!(Some(&30), Collection::index(&m, &3));
    assert_eq!(None, Collection::index(&m, &4));
    assert!(m.store(&5, 55));
    assert!(!m.store(&4, 44));

    let mut keys = Collection::indices(&m);
    keys.sort();
    assert_eq!(vec![3, 5], keys);

    let mut locks = Collection::shadow_locks(&m);
    assert_eq!(Some(LockState::Unlocked), ShadowLocksCollection::index(&locks, &3));
    assert!(locks.set_state(&3, LockState::Shared(1)));
    assert_eq!(Some(LockState::Shared(1)), ShadowLocksCollection::index(&locks, &3));
    locks.update_indices(&vec![3]);
    assert_eq!(Some(LockState::Unlocked), ShadowLocksCollection::index(&locks, &3));
    assert_eq!(None, ShadowLocksCollection::index(&locks, &5));
}
