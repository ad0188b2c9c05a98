use std::collections::BTreeMap;

use futures_channel::mpsc::UnboundedReceiver;
use rx_store::btree_map::MutableBTreeMap;
use rx_store::diff::MapDiff;

#[derive(Clone, Debug, PartialEq, Eq)]
struct TestValueType {
    inner: i32,
}

/// What a subscriber's channel reports, one poll at a time: `None` while it
/// is empty, `Some(None)` once it has ended, `Some(Some(diff))` for a change.
fn polls<K, V>(rx: &mut UnboundedReceiver<MapDiff<K, V>>, n: usize) -> Vec<Option<Option<MapDiff<K, V>>>> {
    (0..n).map(|_| rx.try_next().ok()).collect()
}

#[test]
fn insert_and_remove() {
    let m = MutableBTreeMap::<u8, i8>::new();
    let mut writer = m.lock_mut().unwrap();
    writer.insert(8, -8);
    assert_eq!(writer.get(&8).unwrap(), &-8);

    writer.insert(8, 100);
    assert_eq!(writer.get(&8).unwrap(), &100);

    writer.remove(&8);
    assert_eq!(writer.get(&8), None);
}

#[test]
fn clear() {
    let m = MutableBTreeMap::<u8, i8>::new();
    let mut writer = m.lock_mut().unwrap();
    writer.insert(80, -80);
    assert_eq!(writer.get(&80).unwrap(), &-80);

    writer.clear();
    assert_eq!(writer.get(&8), None);
}

#[test]
fn insert_cloned() {
    let m = MutableBTreeMap::<&'static str, TestValueType>::new();
    let mut writer = m.lock_mut().unwrap();
    writer.insert("test", TestValueType { inner: 294 });
    assert_eq!(writer.get(&"test").unwrap(), &TestValueType { inner: 294 });
}

#[test]
fn signal_map() {
    let map = MutableBTreeMap::<i32, i32>::new();
    let mut rx = map.lock_mut().unwrap().signal_map();
    let mut seen = polls(&mut rx, 1);
    {
        let mut writer = map.lock_mut().unwrap();
        writer.insert(1, 1);
        writer.remove(&1);
    }
    drop(map);
    seen.extend(polls(&mut rx, 3));
    assert_eq!(seen, vec![
        None,
        Some(Some(MapDiff::Insert { key: 1, value: 1 })),
        Some(Some(MapDiff::Remove { key: 1 })),
        Some(None),
    ]);
}

#[test]
fn signal_map_cloned() {
    let map = MutableBTreeMap::<i32, TestValueType>::new();
    let mut rx = map.lock_mut().unwrap().signal_map();
    let mut seen = polls(&mut rx, 1);
    {
        let mut writer = map.lock_mut().unwrap();
        writer.insert(1, TestValueType { inner: 42 });
        writer.remove(&1);
    }
    drop(map);
    seen.extend(polls(&mut rx, 3));
    assert_eq!(seen, vec![
        None,
        Some(Some(MapDiff::Insert { key: 1, value: TestValueType { inner: 42 } })),
        Some(Some(MapDiff::Remove { key: 1 })),
        Some(None),
    ]);
}

#[test]
fn is_from_btreemap() {
    let src = BTreeMap::from([(1, "test".to_string())]);
    let out: MutableBTreeMap<u8, String> = MutableBTreeMap::new_with_values(src);
    assert_eq!(out.lock_ref().unwrap().get(&1).unwrap(), "test");
}
