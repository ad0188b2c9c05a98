use std::collections::BTreeMap;

use futures_channel::mpsc::UnboundedReceiver;
use rx_store::btree_map::MutableBTreeMap;
use rx_store::btree_state::MutableBTreeState;
use rx_store::diff::MapDiff;
use rx_store::sync::LockError;

/// The messages waiting in a subscriber's channel, and whether it has ended.
fn drain<K, V>(rx: &mut UnboundedReceiver<MapDiff<K, V>>) -> (Vec<MapDiff<K, V>>, bool) {
    let mut out = vec![];
    loop {
        match rx.try_next() {
            Ok(Some(d)) => out.push(d),
            Ok(None) => return (out, true),
            Err(_) => return (out, false),
        }
    }
}

#[test]
fn a_new_subscriber_gets_the_entries_in_key_order() {
    let mut state = MutableBTreeState::new(BTreeMap::from([(2, "b"), (1, "a")]));
    let mut rx = state.signal_map();
    assert_eq!(drain(&mut rx), (vec![MapDiff::Replace { entries: vec![(1, "a"), (2, "b")] }], false));
}

#[test]
fn a_subscriber_of_an_empty_map_gets_nothing_first() {
    let mut state = MutableBTreeState::<i32, i32>::new(BTreeMap::new());
    let mut rx = state.signal_map();
    assert_eq!(drain(&mut rx), (vec![], false));
}

#[test]
fn each_change_is_told_once() {
    let mut state = MutableBTreeState::new(BTreeMap::new());
    let mut rx = state.signal_map();
    assert_eq!(state.insert(3, 30), None);
    assert_eq!(state.insert(3, 31), Some(30));
    assert_eq!(state.remove(&9), None);
    assert_eq!(state.remove(&3), Some(31));
    state.clear();
    state.insert(4, 40);
    state.clear();
    state.replace(BTreeMap::from([(6, 60), (5, 50)]));
    assert_eq!(state.values(), &BTreeMap::from([(5, 50), (6, 60)]));
    drop(state);
    assert_eq!(drain(&mut rx), (vec![
        MapDiff::Insert { key: 3, value: 30 },
        MapDiff::Update { key: 3, value: 31 },
        MapDiff::Remove { key: 3 },
        MapDiff::Insert { key: 4, value: 40 },
        MapDiff::Clear {},
        MapDiff::Replace { entries: vec![(5, 50), (6, 60)] },
    ], true));
}

#[test]
fn entries_are_listed_in_key_order() {
    let values = BTreeMap::from([(3, 'c'), (1, 'a'), (2, 'b')]);
    assert_eq!(MutableBTreeState::entries(&values), vec![(1, 'a'), (2, 'b'), (3, 'c')]);
}

#[test]
fn observed_changes_are_applied() {
    let mut state = MutableBTreeState::new(BTreeMap::from([(1, 10)]));
    state.apply_observed(MapDiff::Insert { key: 2, value: 20 });
    state.apply_observed(MapDiff::Update { key: 1, value: 11 });
    assert_eq!(state.values(), &BTreeMap::from([(1, 11), (2, 20)]));
    state.apply_observed(MapDiff::Remove { key: 2 });
    assert_eq!(state.values(), &BTreeMap::from([(1, 11)]));
    state.apply_observed(MapDiff::Replace { entries: vec![(3, 30)] });
    assert_eq!(state.values(), &BTreeMap::from([(1, 11), (3, 30)]));
    state.apply_observed(MapDiff::Clear {});
    assert_eq!(state.values(), &BTreeMap::new());
}

#[test]
fn observed_changes_through_a_lock_are_told() {
    let map = MutableBTreeMap::new_with_values(BTreeMap::from([(1, 10)]));
    let mut rx = map.lock_mut().unwrap().signal_map();
    {
        let mut writer = map.lock_mut().unwrap();
        assert!(!writer.contains_key(&7));
        writer.apply_observed(MapDiff::Remove { key: 1 });
        writer.apply_observed(MapDiff::Insert { key: 2, value: 20 });
    }
    assert_eq!(*map.lock_ref().unwrap(), BTreeMap::from([(2, 20)]));
    assert_eq!(drain(&mut rx), (vec![
        MapDiff::Replace { entries: vec![(1, 10)] },
        MapDiff::Remove { key: 1 },
        MapDiff::Insert { key: 2, value: 20 },
    ], false));
}

#[test]
fn owners_share_one_map() {
    let map = MutableBTreeMap::<u8, u8>::new();
    let other = map.clone();
    other.lock_mut().unwrap().insert(1, 2);
    other.lock_mut().unwrap().replace(BTreeMap::from([(3, 4)]));
    assert_eq!(*map.lock_ref().unwrap(), BTreeMap::from([(3, 4)]));
    map.lock_mut().unwrap().clear();
    assert!(other.lock_ref().unwrap().is_empty());
}

#[test]
fn a_map_lock_mut_shows_its_changes_and_hands_them_back() {
    let map = MutableBTreeMap::new_with_values(BTreeMap::from([(1, 'a')]));
    let mut rx = map.lock_mut().unwrap().signal_map();
    {
        let mut writer = map.lock_mut().unwrap();
        assert_eq!(*writer, BTreeMap::from([(1, 'a')]));
        writer.insert(2, 'b');
        assert_eq!(writer.remove(&1), Some('a'));
        assert_eq!(*writer, BTreeMap::from([(2, 'b')]));
    }
    assert_eq!(*map.lock_ref().unwrap(), BTreeMap::from([(2, 'b')]));
    let mut again = map.lock_mut().unwrap();
    again.clear();
    drop(again);
    assert!(map.lock_ref().unwrap().is_empty());
    assert_eq!(drain(&mut rx), (vec![
        MapDiff::Replace { entries: vec![(1, 'a')] },
        MapDiff::Insert { key: 2, value: 'b' },
        MapDiff::Remove { key: 1 },
        MapDiff::Clear {},
    ], false));
}

#[test]
fn a_held_map_lock_is_refused_without_waiting() {
    let map = MutableBTreeMap::<u8, u8>::new();
    let writer = map.lock_mut().unwrap();
    assert_eq!(map.lock_ref().err(), Some(LockError::WouldBlock));
    drop(writer);
    let reader = map.lock_ref().unwrap();
    assert_eq!(map.lock_mut().err(), Some(LockError::WouldBlock));
    drop(reader);
    assert!(map.lock_mut().is_ok());
}
