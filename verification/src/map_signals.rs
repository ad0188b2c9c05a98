use vstd::prelude::*;
use std::collections::VecDeque;
use vstd::laws_eq::obeys_concrete_eq;
use vstd::std_specs::cmp::PartialEqSpec;

use crate::diff::{apply_map_diff, diff_mapped_by, entries_map, entry_keys, lemma_entries_map_lookup, replay_map_diffs, MapDiff};

verus! {

/// The outcome of polling a signal: a value, or nothing yet.
#[derive(Debug, Clone, Copy, PartialEq, Eq)]
pub enum PollState<T> {
    Ready(T),
    Pending,
}

/// The value of a poll that must have produced one.
pub fn unwrap<A>(x: PollState<Option<A>>) -> (a: A)
    requires
        x matches PollState::Ready(Some(_)),
    ensures
        x == PollState::Ready(Some(a)),
{
    match x {
        PollState::Ready(Some(a)) => a,
        _ => unreached(),
    }
}

/// What a poll of a map-valued signal whose values are mapped by `callback`
/// reports, given what the source's poll reported: nothing yet and the end
/// pass through, and a change comes with `callback` applied to each of its
/// values, keys and order kept.
pub fn map_poll<K, A, B, F: Fn(A) -> B>(polled: PollState<Option<MapDiff<K, A>>>, callback: F) -> (out: PollState<Option<MapDiff<K, B>>>)
    requires
        forall|a: A| call_requires(callback, (a,)),
    ensures
        polled is Pending ==> out is Pending,
        polled == PollState::<Option<MapDiff<K, A>>>::Ready(None) ==> out == PollState::<Option<MapDiff<K, B>>>::Ready(None),
        polled matches PollState::Ready(Some(d)) ==> (out matches PollState::Ready(Some(o)) && diff_mapped_by(d, callback, o)),
{
    match polled {
        PollState::Ready(Some(d)) => PollState::Ready(Some(d.map(callback))),
        PollState::Ready(None) => PollState::Ready(None),
        PollState::Pending => PollState::Pending,
    }
}

/// Collects the changes of one poll: the first apart, so that it can be
/// handed out at once, and the rest in order.
#[verifier::reject_recursive_types(A)]
pub struct PendingBuilder<A> {
    first: Option<A>,
    rest: VecDeque<A>,
}

impl<A> PendingBuilder<A> {
    #[verifier::type_invariant]
    closed spec fn wf(&self) -> bool {
        self.first is None ==> self.rest@.len() == 0
    }

    /// The collected changes, in the order they were pushed.
    pub closed spec fn items(&self) -> Seq<A> {
        match self.first {
            None => Seq::empty(),
            Some(a) => seq![a] + self.rest@,
        }
    }

    /// Nothing collected.
    pub fn new() -> (b: Self)
        ensures
            b.items() == Seq::<A>::empty(),
    {
        PendingBuilder { first: None, rest: VecDeque::new() }
    }

    /// Adds `value` after the changes collected so far.
    pub fn push(&mut self, value: A)
        ensures
            final(self).items() == old(self).items().push(value),
    {
        proof { use_type_invariant(&*self); }
        let mut taken = PendingBuilder { first: None, rest: VecDeque::new() };
        std::mem::swap(self, &mut taken);
        let PendingBuilder { first, mut rest } = taken;
        match first {
            None => {
                assert(seq![value] =~= Seq::<A>::empty().push(value) + rest@);
                *self = PendingBuilder { first: Some(value), rest };
            },
            Some(f) => {
                let ghost old_rest = rest@;
                rest.push_back(value);
                assert(seq![f] + rest@ =~= (seq![f] + old_rest).push(value));
                *self = PendingBuilder { first: Some(f), rest };
            },
        }
    }

    /// The first change collected, if any, and the others in order.
    pub fn into_parts(self) -> (parts: (Option<A>, VecDeque<A>))
        ensures
            parts.0 is None ==> self.items() == Seq::<A>::empty() && parts.1@ == Seq::<A>::empty(),
            parts.0 matches Some(f) ==> self.items() == seq![f] + parts.1@,
    {
        proof { use_type_invariant(&self); }
        let PendingBuilder { first, rest } = self;
        (first, rest)
    }

    /// What a poll reports once its changes are collected, and the changes
    /// left for the next polls: the first change if there is one; otherwise
    /// the end, when the source has ended (`done`) and no signal of a value
    /// is still running (`!has_pending`); otherwise nothing yet.
    pub fn finish(self, done: bool, has_pending: bool) -> (out: (PollState<Option<A>>, VecDeque<A>))
        ensures
            self.items().len() > 0 ==> {
                &&& out.0 == PollState::Ready(Some(self.items()[0]))
                &&& out.1@ == self.items().drop_first()
            },
            self.items().len() == 0 ==> {
                &&& out.1@ == Seq::<A>::empty()
                &&& out.0 == if done && !has_pending { PollState::Ready(None) } else { PollState::<Option<A>>::Pending }
            },
    {
        proof { use_type_invariant(&self); }
        let ghost items = self.items();
        let PendingBuilder { first, rest } = self;
        match first {
            Some(f) => {
                assert(items.drop_first() =~= rest@);
                (PollState::Ready(Some(f)), rest)
            },
            None => {
                if done && !has_pending {
                    (PollState::Ready(None), rest)
                } else {
                    (PollState::Pending, rest)
                }
            },
        }
    }
}

/// A map-valued signal that reports its entries once, as a replacement, and then ends.
#[derive(Debug)]
pub struct Always<A> {
    map: Option<A>,
}

impl<A> Unpin for Always<A> {}

/// The signal that reports `map` once.
pub fn always<A>(map: A) -> (s: Always<A>)
    ensures
        s.pending() == Some(map),
{
    Always { map: Some(map) }
}

impl<A> Always<A> {
    /// What is still to be reported.
    pub closed spec fn pending(&self) -> Option<A> {
        self.map
    }

    /// Hands out what is still to be reported, leaving nothing.
    pub fn take(&mut self) -> (a: Option<A>)
        ensures
            a == old(self).pending(),
            final(self).pending() is None,
    {
        self.map.take()
    }
}

impl<K, V> Always<Vec<(K, V)>> {
    /// The next change: the listed entries as a replacement the first time,
    /// the end of the signal after that.
    pub fn next_diff(&mut self) -> (d: Option<MapDiff<K, V>>)
        ensures
            final(self).pending() is None,
            match old(self).pending() {
                Some(entries) => d == Some(MapDiff::Replace { entries }),
                None => d is None,
            },
    {
        match self.take() {
            Some(entries) => Some(MapDiff::Replace { entries }),
            None => None,
        }
    }
}

/// The value of the first entry of `s`, from index `from` on, whose key
/// equals `key` by its `PartialEq`.
pub open spec fn first_match<K: PartialEq, V>(s: Seq<(K, V)>, key: K, from: int) -> Option<V>
    decreases s.len() - from,
{
    if from < 0 || from >= s.len() {
        None
    } else if s[from].0.eq_spec(&key) {
        Some(s[from].1)
    } else {
        first_match(s, key, from + 1)
    }
}

/// The value `m` holds for `key`, if any.
pub open spec fn lookup<K, V>(m: Map<K, V>, key: K) -> Option<V> {
    if m.contains_key(key) {
        Some(m[key])
    } else {
        None
    }
}

/// With `PartialEq` agreeing with equality, `first_match` finds the one entry
/// of `key` from `from` on, if the keys of `s` are distinct.
proof fn lemma_first_match_unique<K: PartialEq, V>(s: Seq<(K, V)>, key: K, from: int)
    requires
        obeys_concrete_eq::<K>(),
        entry_keys(s).no_duplicates(),
        0 <= from,
    ensures
        forall|i: int| from <= i < s.len() && (#[trigger] s[i]).0 == key ==> first_match(s, key, from) == Some(s[i].1),
        (forall|i: int| from <= i < s.len() ==> (#[trigger] s[i]).0 != key) ==> first_match(s, key, from) is None,
    decreases s.len() - from,
{
    reveal(obeys_concrete_eq);
    if from < s.len() {
        lemma_first_match_unique(s, key, from + 1);
        assert forall|i: int| from <= i < s.len() && (#[trigger] s[i]).0 == key implies first_match(s, key, from) == Some(s[i].1) by {
            if i != from && s[from].0 == key {
                assert(entry_keys(s)[i] == entry_keys(s)[from]);
            }
        }
    }
}

/// The value `entries_map(s)` holds for `key` is the value of the entry of `key` in `s`.
proof fn lemma_first_match_is_lookup<K: PartialEq, V>(s: Seq<(K, V)>, key: K)
    requires
        obeys_concrete_eq::<K>(),
        entry_keys(s).no_duplicates(),
    ensures
        first_match(s, key, 0) == lookup(entries_map(s), key),
{
    lemma_first_match_unique(s, key, 0);
    lemma_entries_map_lookup(s, key);
    if entries_map(s).contains_key(key) {
        let i = choose|i: int| 0 <= i < s.len() && (#[trigger] s[i]).0 == key && s[i].1 == entries_map(s)[key];
        assert(s[i].0 == key);
    }
}

/// Law: a watcher that knows the value of its key in `m` knows, after a
/// change `d`, the key's value in the changed map, when `PartialEq` agrees
/// with equality and a replacement lists each key once.
pub proof fn lemma_watch_follows_map<K: PartialEq, V>(m: Map<K, V>, key: K, d: MapDiff<K, V>)
    requires
        obeys_concrete_eq::<K>(),
        d matches MapDiff::Replace { entries } ==> entry_keys(entries@).no_duplicates(),
    ensures
        watched_after(key, Some(lookup(m, key)), d) == Some(lookup(apply_map_diff(m, d), key)),
        watched_after(key, None, d) is None ==> lookup(apply_map_diff(m, d), key) == lookup(m, key),
{
    reveal(obeys_concrete_eq);
    match d {
        MapDiff::Replace { entries } => {
            lemma_first_match_is_lookup(entries@, key);
        },
        _ => {},
    }
}

/// What a watcher of `key` knows after the changes `ds`, in order, having
/// known `changed` before them.
pub open spec fn watched_after_all<K: PartialEq, V>(key: K, changed: Option<Option<V>>, ds: Seq<MapDiff<K, V>>) -> Option<Option<V>>
    decreases ds.len(),
{
    if ds.len() == 0 {
        changed
    } else {
        watched_after(key, watched_after_all(key, changed, ds.drop_last()), ds.last())
    }
}

/// Law: after all the changes that one poll drains, starting from nothing
/// seen, a watcher of `key` that saw something knows the key's value in the
/// changed map, and one that saw nothing watches a key whose value did not
/// change, when `PartialEq` agrees with equality and each replacement lists
/// each key once.
pub proof fn lemma_watch_follows_stream<K: PartialEq, V>(m: Map<K, V>, key: K, ds: Seq<MapDiff<K, V>>)
    requires
        obeys_concrete_eq::<K>(),
        forall|i: int| 0 <= i < ds.len() ==>
            ((#[trigger] ds[i]) matches MapDiff::Replace { entries } ==> entry_keys(entries@).no_duplicates()),
    ensures
        watched_after_all(key, None, ds) matches Some(c) ==> c == lookup(replay_map_diffs(m, ds), key),
        watched_after_all(key, None, ds) is None ==> lookup(replay_map_diffs(m, ds), key) == lookup(m, key),
    decreases ds.len(),
{
    if ds.len() > 0 {
        let rest = ds.drop_last();
        assert forall|i: int| 0 <= i < rest.len() implies
            ((#[trigger] rest[i]) matches MapDiff::Replace { entries } ==> entry_keys(entries@).no_duplicates()) by {
            assert(rest[i] == ds[i]);
        }
        lemma_watch_follows_stream(m, key, rest);
        let prev = replay_map_diffs(m, rest);
        let d = ds.last();
        assert(d == ds[ds.len() - 1]);
        lemma_watch_follows_map(prev, key, d);
        reveal(obeys_concrete_eq);
    }
}

/// What a poll of a watched key reports, given whether no value was
/// reported yet (`first`), what the changes it drained told (`changed`) and
/// whether the map-valued signal has ended (`is_done`).
pub open spec fn watch_outcome<V>(first: bool, changed: Option<Option<V>>, is_done: bool) -> PollState<Option<Option<V>>> {
    match changed {
        Some(c) => PollState::Ready(Some(c)),
        None => if first {
            PollState::Ready(Some(None))
        } else if is_done {
            PollState::Ready(None)
        } else {
            PollState::Pending
        },
    }
}

/// Law: a poll of a watched key reports a value exactly when it is the first
/// poll or the changes it drained told something, and the value it reports
/// is the key's value in the map those changes lead to, given that the
/// first poll starts from the empty map, when `PartialEq` agrees with
/// equality and each replacement lists each key once.
pub proof fn lemma_watch_poll_reports<K: PartialEq, V>(m: Map<K, V>, key: K, ds: Seq<MapDiff<K, V>>, first: bool, is_done: bool)
    requires
        obeys_concrete_eq::<K>(),
        forall|i: int| 0 <= i < ds.len() ==>
            ((#[trigger] ds[i]) matches MapDiff::Replace { entries } ==> entry_keys(entries@).no_duplicates()),
        first ==> m == Map::<K, V>::empty(),
    ensures
        (watch_outcome(first, watched_after_all(key, None, ds), is_done) is Ready
            && watch_outcome(first, watched_after_all(key, None, ds), is_done)->Ready_0 is Some)
            <==> (first || watched_after_all(key, None, ds) is Some),
        watch_outcome(first, watched_after_all(key, None, ds), is_done) matches PollState::Ready(Some(x))
            ==> x == lookup(replay_map_diffs(m, ds), key),
{
    lemma_watch_follows_stream(m, key, ds);
}

/// What a watcher of `key` knows after the change `d`, having known
/// `changed` before: `None` if it saw nothing new, otherwise the key's new
/// value or its absence.
pub open spec fn watched_after<K: PartialEq, V>(key: K, changed: Option<Option<V>>, d: MapDiff<K, V>) -> Option<Option<V>> {
    match d {
        MapDiff::Replace { entries } => Some(first_match(entries@, key, 0)),
        MapDiff::Insert { key: k, value } => if k.eq_spec(&key) { Some(Some(value)) } else { changed },
        MapDiff::Update { key: k, value } => if k.eq_spec(&key) { Some(Some(value)) } else { changed },
        MapDiff::Remove { key: k } => if k.eq_spec(&key) { Some(None) } else { changed },
        MapDiff::Clear {} => Some(None),
    }
}

/// Follows the value of one key through the changes of a map-valued signal.
pub struct WatchedKey<K> {
    watch_key: K,
    first: bool,
}

impl<K: PartialEq> WatchedKey<K> {
    /// The key followed.
    pub closed spec fn key(&self) -> K {
        self.watch_key
    }

    /// No value was reported yet.
    pub closed spec fn is_first(&self) -> bool {
        self.first
    }

    /// Starts following `key`.
    pub fn new(key: K) -> (w: Self)
        ensures
            w.key() == key,
            w.is_first(),
    {
        WatchedKey { watch_key: key, first: true }
    }

    /// Takes in one change of the map, `changed` being what the changes of
    /// the same poll told so far.
    pub fn track<V>(&self, changed: Option<Option<V>>, d: MapDiff<K, V>) -> (out: Option<Option<V>>)
        ensures
            K::obeys_eq_spec() ==> out == watched_after(self.key(), changed, d),
    {
        match d {
            MapDiff::Replace { entries } => {
                let ghost s = entries@;
                let n = entries.len();
                let mut found: Option<V> = None;
                let mut done = false;
                let mut i: usize = 0;
                for entry in it: entries.into_iter()
                    invariant
                        it.seq() == s,
                        i == it.index(),
                        n == s.len(),
                        i <= n,
                        K::obeys_eq_spec() ==> (if done {
                            found == first_match(s, self.watch_key, 0)
                        } else {
                            found is None && first_match(s, self.watch_key, 0) == first_match(s, self.watch_key, i as int)
                        }),
                {
                    if !done {
                        let (k, v) = entry;
                        if k == self.watch_key {
                            found = Some(v);
                            done = true;
                        }
                    }
                    i = i + 1;
                }
                Some(found)
            },
            MapDiff::Insert { key, value } => if key == self.watch_key { Some(Some(value)) } else { changed },
            MapDiff::Update { key, value } => if key == self.watch_key { Some(Some(value)) } else { changed },
            MapDiff::Remove { key } => if key == self.watch_key { Some(None) } else { changed },
            MapDiff::Clear {} => Some(None),
        }
    }

    /// What the poll reports, given what its changes told (`changed`) and
    /// whether the map-valued signal has ended (`is_done`): a change if there
    /// was one, the key's absence on the very first poll, the end of the
    /// signal once the map has ended, nothing yet otherwise.
    pub fn finish<V>(&mut self, changed: Option<Option<V>>, is_done: bool) -> (out: PollState<Option<Option<V>>>)
        ensures
            final(self).key() == old(self).key(),
            out == watch_outcome(old(self).is_first(), changed, is_done),
            changed is Some || old(self).is_first() ==> !final(self).is_first(),
            changed is None && !old(self).is_first() ==> final(self).is_first() == old(self).is_first(),
    {
        match changed {
            Some(change) => {
                self.first = false;
                PollState::Ready(Some(change))
            },
            None => {
                if self.first {
                    self.first = false;
                    PollState::Ready(Some(None))
                } else if is_done {
                    PollState::Ready(None)
                } else {
                    PollState::Pending
                }
            },
        }
    }
}

} // verus!
