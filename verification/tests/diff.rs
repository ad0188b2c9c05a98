use rx_store::diff::{clone_diff, MapDiff};

#[test]
fn map_changes_only_the_values() {
    let f = |v: i32| v * 10;
    assert_eq!(MapDiff::Replace { entries: vec![(1, 1), (2, 2)] }.map(f), MapDiff::Replace { entries: vec![(1, 10), (2, 20)] });
    assert_eq!(MapDiff::Insert { key: 'a', value: 3 }.map(f), MapDiff::Insert { key: 'a', value: 30 });
    assert_eq!(MapDiff::Update { key: 'a', value: 4 }.map(f), MapDiff::Update { key: 'a', value: 40 });
    assert_eq!(MapDiff::<char, i32>::Remove { key: 'a' }.map(f), MapDiff::Remove { key: 'a' });
    assert_eq!(MapDiff::<char, i32>::Clear {}.map(f), MapDiff::Clear {});
}

#[test]
fn map_may_change_the_value_type() {
    let d = MapDiff::Insert { key: 1u8, value: 5u32 }.map(|v: u32| format!("{}!", v));
    assert_eq!(d, MapDiff::Insert { key: 1u8, value: String::from("5!") });
}

#[test]
fn clone_diff_gives_an_equal_change() {
    let d = MapDiff::Replace { entries: vec![(String::from("k"), 1)] };
    assert_eq!(clone_diff(&d), d);
    let r = MapDiff::<u8, u8>::Remove { key: 3 };
    assert_eq!(clone_diff(&r), r);
}
