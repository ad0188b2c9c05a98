use std::collections::VecDeque;

use rx_store::diff::MapDiff;
use rx_store::map_signals::{always, map_poll, unwrap, PendingBuilder, PollState, WatchedKey};

#[test]
fn unwrap_gives_the_value_of_a_ready_poll() {
    assert_eq!(unwrap(PollState::Ready(Some(3))), 3);
    assert_eq!(unwrap(PollState::Ready(Some("s"))), "s");
}

#[test]
fn pending_builder_keeps_the_order_of_pushes() {
    let empty: PendingBuilder<u8> = PendingBuilder::new();
    assert_eq!(empty.into_parts(), (None, VecDeque::new()));

    let mut b = PendingBuilder::new();
    b.push('a');
    assert_eq!(b.into_parts(), (Some('a'), VecDeque::new()));

    let mut b = PendingBuilder::new();
    b.push(1);
    b.push(2);
    b.push(3);
    assert_eq!(b.into_parts(), (Some(1), VecDeque::from(vec![2, 3])));
}

#[test]
fn always_reports_its_entries_once() {
    let mut s = always(vec![(1, 'a'), (2, 'b')]);
    assert_eq!(s.next_diff(), Some(MapDiff::Replace { entries: vec![(1, 'a'), (2, 'b')] }));
    assert_eq!(s.next_diff(), None);
    assert_eq!(s.next_diff(), None);
}

#[test]
fn a_watched_key_follows_its_changes() {
    let w = WatchedKey::new(2);
    assert_eq!(w.track(None, MapDiff::Insert { key: 2, value: 'x' }), Some(Some('x')));
    assert_eq!(w.track(None, MapDiff::Insert { key: 3, value: 'y' }), None);
    assert_eq!(w.track(Some(Some('q')), MapDiff::Update { key: 3, value: 'y' }), Some(Some('q')));
    assert_eq!(w.track(None, MapDiff::Update { key: 2, value: 'u' }), Some(Some('u')));
    assert_eq!(w.track(Some(Some('q')), MapDiff::<i32, char>::Remove { key: 2 }), Some(None));
    assert_eq!(w.track(None, MapDiff::<i32, char>::Remove { key: 7 }), None);
    assert_eq!(w.track(Some(Some('q')), MapDiff::<i32, char>::Clear {}), Some(None));
    assert_eq!(w.track(None, MapDiff::Replace { entries: vec![(1, 'a'), (2, 'b'), (2, 'c')] }), Some(Some('b')));
    assert_eq!(w.track(Some(Some('q')), MapDiff::Replace { entries: vec![(1, 'a')] }), Some(None));
}

#[test]
fn a_watched_key_reports_absence_first_then_waits_then_ends() {
    let mut w = WatchedKey::new("k");
    assert_eq!(w.finish::<u8>(None, false), PollState::Ready(Some(None)));
    assert_eq!(w.finish::<u8>(None, false), PollState::Pending);
    assert_eq!(w.finish(Some(Some(4u8)), false), PollState::Ready(Some(Some(4))));
    assert_eq!(w.finish::<u8>(None, true), PollState::Ready(None));

    let mut w = WatchedKey::new("k");
    assert_eq!(w.finish(Some(Some(9u8)), true), PollState::Ready(Some(Some(9))));
    assert_eq!(w.finish::<u8>(None, true), PollState::Ready(None));
}

#[test]
fn a_finished_poll_reports_the_first_change() {
    let mut b = PendingBuilder::new();
    b.push(1);
    b.push(2);
    assert_eq!(b.finish(true, false), (PollState::Ready(Some(1)), VecDeque::from(vec![2])));
}

#[test]
fn a_finished_poll_without_changes_ends_only_when_nothing_runs() {
    let b: PendingBuilder<u8> = PendingBuilder::new();
    assert_eq!(b.finish(true, false), (PollState::Ready(None), VecDeque::new()));
    let b: PendingBuilder<u8> = PendingBuilder::new();
    assert_eq!(b.finish(true, true), (PollState::Pending, VecDeque::new()));
    let b: PendingBuilder<u8> = PendingBuilder::new();
    assert_eq!(b.finish(false, false), (PollState::Pending, VecDeque::new()));
}

#[test]
fn a_mapped_poll_maps_changes_and_passes_the_rest() {
    let f = |v: u8| v * 2;
    assert_eq!(map_poll(PollState::Ready(Some(MapDiff::Insert { key: 1, value: 4u8 })), f), PollState::Ready(Some(MapDiff::Insert { key: 1, value: 8u8 })));
    assert_eq!(map_poll(PollState::<Option<MapDiff<i32, u8>>>::Ready(None), f), PollState::Ready(None));
    assert_eq!(map_poll(PollState::<Option<MapDiff<i32, u8>>>::Pending, f), PollState::Pending);
}
