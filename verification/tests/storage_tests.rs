//! The generational store: key validity, staleness, slot reuse, growth, and
//! the per-slot exclusive-access guards.

use phythyst::storage::Storage;

#[test]
fn key_valid_until_removed() {
    let mut s: Storage<u64> = Storage::new(4, 4);
    let k = s.insert(7);
    assert!(s.has(k));
    assert_eq!(s.get(k).copied(), Some(7));
    let removed = s.remove(k);
    assert_eq!(removed, Some(7));
    assert!(!s.has(k));
    assert!(s.get(k).is_none());
}

#[test]
fn reused_slot_gets_new_generation() {
    let mut s: Storage<u64> = Storage::new(1, 1);
    let k1 = s.insert(1);
    s.remove(k1);
    let k2 = s.insert(2);
    // The slot is reused, but the stale key keeps failing.
    assert_eq!(k1.index, k2.index);
    assert!(k2.generation > k1.generation);
    assert!(!s.has(k1));
    assert!(s.get(k1).is_none());
    assert_eq!(s.get(k2).copied(), Some(2));
}

#[test]
fn removing_stale_key_is_noop() {
    let mut s: Storage<u64> = Storage::new(2, 2);
    let k = s.insert(5);
    assert_eq!(s.remove(k), Some(5));
    assert_eq!(s.remove(k), None);
    let other = s.insert(6);
    assert_eq!(s.remove(k), None);
    assert_eq!(s.get(other).copied(), Some(6));
}

#[test]
fn grows_by_increment_when_full() {
    let mut s: Storage<u64> = Storage::new(0, 3);
    let k1 = s.insert(1);
    let k2 = s.insert(2);
    let k3 = s.insert(3);
    let k4 = s.insert(4);
    assert_eq!(s.get(k1).copied(), Some(1));
    assert_eq!(s.get(k2).copied(), Some(2));
    assert_eq!(s.get(k3).copied(), Some(3));
    assert_eq!(s.get(k4).copied(), Some(4));
}

#[test]
fn distinct_slots_lock_independently() {
    let mut s: Storage<u64> = Storage::new(4, 4);
    let k1 = s.insert(10);
    let k2 = s.insert(20);
    // Guards for two distinct keys are held at the same time.
    let g1 = s.get_mut(k1).unwrap();
    let g2 = s.get_mut(k2).unwrap();
    assert_eq!(g1.value, 10);
    assert_eq!(g2.value, 20);
    s.release(g1);
    s.release(g2);
    assert_eq!(s.get(k1).copied(), Some(10));
    assert_eq!(s.get(k2).copied(), Some(20));
}

#[test]
fn guard_checks_value_out_and_back() {
    let mut s: Storage<u64> = Storage::new(2, 2);
    let k = s.insert(1);
    let mut g = s.get_mut(k).unwrap();
    // While the guard is out the slot is locked: shared reads fail, the key
    // stays live.
    assert!(s.get(k).is_none());
    assert!(s.has(k));
    g.value = 99;
    s.release(g);
    assert_eq!(s.get(k).copied(), Some(99));
    // After release the slot can be acquired again.
    let g2 = s.get_mut(k).unwrap();
    assert_eq!(g2.value, 99);
    s.release(g2);
}

#[test]
fn get_mut_on_stale_key_is_none() {
    let mut s: Storage<u64> = Storage::new(2, 2);
    let k = s.insert(1);
    s.remove(k);
    assert!(s.get_mut(k).is_none());
}

#[test]
fn live_keys_lists_every_live_key_in_slot_order() {
    let mut s: Storage<u64> = Storage::new(4, 4);
    let k1 = s.insert(1);
    let k2 = s.insert(2);
    let k3 = s.insert(3);
    s.remove(k2);
    let keys = s.live_keys();
    assert_eq!(keys.len(), 2);
    assert_eq!(keys[0], k1);
    assert_eq!(keys[1], k3);
}
