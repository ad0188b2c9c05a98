use rx_store::diff::{MapDiff, VecDiff};
use rx_store::keys::SortedKeys;
use rx_store::order::{compare_keys, KeyOrder};

#[test]
fn keys_follow_the_changes_of_a_map() {
    let mut keys = SortedKeys::new();
    assert_eq!(keys.keys_change(MapDiff::Replace { entries: vec![(1, 'a'), (3, 'c')] }), Some(VecDiff::Replace { values: vec![1, 3] }));
    assert_eq!(keys.keys_change(MapDiff::Insert { key: 2, value: 'b' }), Some(VecDiff::InsertAt { index: 1, value: 2 }));
    assert_eq!(keys.keys_change(MapDiff::Insert { key: 9, value: 'z' }), Some(VecDiff::InsertAt { index: 3, value: 9 }));
    assert_eq!(keys.keys_change(MapDiff::Update { key: 2, value: 'B' }), None);
    assert!(keys.contains(&2));
    assert_eq!(keys.keys_change(MapDiff::<i32, char>::Remove { key: 1 }), Some(VecDiff::RemoveAt { index: 0 }));
    assert!(!keys.contains(&1));
    assert_eq!(keys.keys_change(MapDiff::<i32, char>::Remove { key: 9 }), Some(VecDiff::RemoveAt { index: 2 }));
    assert_eq!(keys.keys_change(MapDiff::<i32, char>::Clear {}), Some(VecDiff::Clear {}));
    assert!(!keys.contains(&2));
}

#[test]
fn entries_follow_the_changes_of_a_map() {
    let mut keys = SortedKeys::new();
    assert_eq!(keys.entries_change(MapDiff::Replace { entries: vec![(10, "x"), (30, "z")] }), VecDiff::Replace { values: vec![(10, "x"), (30, "z")] });
    assert_eq!(keys.entries_change(MapDiff::Insert { key: 20, value: "y" }), VecDiff::InsertAt { index: 1, value: (20, "y") });
    assert_eq!(keys.entries_change(MapDiff::Update { key: 30, value: "w" }), VecDiff::UpdateAt { index: 2, value: (30, "w") });
    assert_eq!(keys.entries_change(MapDiff::<i32, &str>::Remove { key: 10 }), VecDiff::RemoveAt { index: 0 });
    assert_eq!(keys.entries_change(MapDiff::<i32, &str>::Clear {}), VecDiff::Clear {});
    assert!(!keys.contains(&20));
}

#[test]
fn changes_that_do_not_fit_the_keys_are_refused() {
    let mut keys = SortedKeys::new();
    assert!(keys.accepts(&MapDiff::Replace { entries: vec![(1, ()), (2, ())] }, true));
    assert!(!keys.accepts(&MapDiff::Replace { entries: vec![(2, ()), (1, ())] }, true));
    assert!(!keys.accepts(&MapDiff::Replace { entries: vec![(1, ()), (1, ())] }, true));
    assert!(keys.accepts(&MapDiff::<i32, ()>::Replace { entries: vec![] }, true));
    let _ = keys.keys_change(MapDiff::Replace { entries: vec![(1, ()), (2, ())] });
    assert!(!keys.accepts(&MapDiff::Insert { key: 1, value: () }, true));
    assert!(keys.accepts(&MapDiff::Insert { key: 3, value: () }, true));
    assert!(!keys.accepts(&MapDiff::<i32, ()>::Remove { key: 5 }, true));
    assert!(keys.accepts(&MapDiff::<i32, ()>::Remove { key: 2 }, true));
    assert!(!keys.accepts(&MapDiff::Update { key: 5, value: () }, true));
    assert!(keys.accepts(&MapDiff::Update { key: 5, value: () }, false));
    assert!(keys.accepts(&MapDiff::<i32, ()>::Clear {}, false));
}

#[test]
fn keys_compare_by_their_order() {
    assert_eq!(compare_keys(&1, &2), KeyOrder::Less);
    assert_eq!(compare_keys(&"b", &"b"), KeyOrder::Equal);
    assert_eq!(compare_keys(&'z', &'a'), KeyOrder::Greater);
}
