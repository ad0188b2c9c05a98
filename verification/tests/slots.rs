use rx_store::diff::MapDiff;
use std::collections::VecDeque;

use rx_store::map_signals::{PendingBuilder, PollState};
use rx_store::slots::{inner_polled, source_change, SignalSlots};

#[test]
fn slots_follow_the_keys_of_the_changes() {
    let mut slots = SignalSlots::new();
    slots.follow(MapDiff::Replace { entries: vec![(3, "c"), (1, "a")] });
    assert_eq!(slots.keys(), vec![1, 3]);
    slots.follow(MapDiff::Insert { key: 2, value: "b" });
    assert_eq!(slots.keys(), vec![1, 2, 3]);
    slots.follow(MapDiff::Update { key: 2, value: "B" });
    assert_eq!(slots.take(2), Some("B"));
    slots.follow(MapDiff::Remove { key: 1 });
    assert_eq!(slots.keys(), vec![2, 3]);
    assert!(!slots.contains(&1));
    slots.follow(MapDiff::Clear {});
    assert_eq!(slots.keys(), Vec::<i32>::new());
}

#[test]
fn a_taken_slot_stays_empty_until_put() {
    let mut slots = SignalSlots::new();
    slots.follow(MapDiff::Insert { key: 'k', value: 7 });
    assert_eq!(slots.take('k'), Some(7));
    assert!(slots.contains(&'k'));
    assert_eq!(slots.take('k'), None);
    slots.put('k', 8);
    assert_eq!(slots.take('k'), Some(8));
    assert_eq!(slots.take('z'), None);
    assert!(!slots.contains(&'z'));
}

#[test]
fn a_replacement_drops_the_old_slots() {
    let mut slots = SignalSlots::new();
    slots.follow(MapDiff::Insert { key: 5, value: 50 });
    slots.follow(MapDiff::Replace { entries: vec![(6, 60), (6, 61)] });
    assert_eq!(slots.keys(), vec![6]);
    assert_eq!(slots.take(6), Some(61));
    assert_eq!(slots.take(5), None);
}

#[test]
fn a_source_change_fills_the_slots_and_tells_the_first_values() {
    let mut slots = SignalSlots::new();
    let told = source_change(&mut slots, MapDiff::Replace { entries: vec![(1, ('a', 10)), (2, ('b', 20))] });
    assert_eq!(told, MapDiff::Replace { entries: vec![(1, 'a'), (2, 'b')] });
    assert_eq!(slots.keys(), vec![1, 2]);
    assert_eq!(source_change(&mut slots, MapDiff::Insert { key: 3, value: ('c', 30) }), MapDiff::Insert { key: 3, value: 'c' });
    assert_eq!(source_change(&mut slots, MapDiff::Update { key: 1, value: ('A', 11) }), MapDiff::Update { key: 1, value: 'A' });
    assert_eq!(slots.take(1), Some(11));
    assert_eq!(source_change(&mut slots, MapDiff::<i32, (char, i32)>::Remove { key: 2 }), MapDiff::Remove { key: 2 });
    assert_eq!(slots.keys(), vec![1, 3]);
    assert_eq!(source_change(&mut slots, MapDiff::<i32, (char, i32)>::Clear {}), MapDiff::Clear {});
    assert_eq!(slots.keys(), Vec::<i32>::new());
}

#[test]
fn an_inner_poll_tells_updates_and_keeps_running_signals() {
    let mut slots = SignalSlots::new();
    slots.follow(MapDiff::Insert { key: 'k', value: 1u8 });
    let mut pending = PendingBuilder::new();
    let s = slots.take('k').unwrap();
    assert!(!inner_polled(&mut slots, 'k', s, PollState::Ready(Some("v")), &mut pending));
    assert_eq!(slots.take('k'), Some(1));
    assert!(inner_polled(&mut slots, 'k', 2u8, PollState::<Option<&str>>::Pending, &mut pending));
    assert_eq!(slots.take('k'), Some(2));
    assert!(!inner_polled(&mut slots, 'k', 3u8, PollState::<Option<&str>>::Ready(None), &mut pending));
    assert_eq!(slots.take('k'), None);
    assert!(slots.contains(&'k'));
    assert_eq!(pending.into_parts(), (Some(MapDiff::Update { key: 'k', value: "v" }), VecDeque::new()));
}
