use vstd::prelude::*;
use std::collections::BTreeMap;
use vstd::std_specs::iter::IteratorSpec;

use crate::btree_state::lawful_keys;
use vstd::std_specs::btree::increasing_seq;

use crate::diff::{apply_map_diff, clone_faithful, entries_map, entry_keys, lemma_entries_map_map_values, MapDiff};
use crate::map_signals::{PendingBuilder, PollState};

verus! {

/// The slots of the signals of `m`, each filled.
pub open spec fn filled<K, S>(m: Map<K, S>) -> Map<K, Option<S>> {
    m.map_values(|s: S| Some(s))
}

/// The slots that following the change `d` leads to from `m`: the signal of
/// an inserted, updated or replacing entry fills the slot of its key, and the
/// keys follow the change.
pub open spec fn slots_after<K, S>(m: Map<K, Option<S>>, d: MapDiff<K, S>) -> Map<K, Option<S>> {
    match d {
        MapDiff::Replace { entries } => filled(entries_map(entries@)),
        MapDiff::Insert { key, value } => m.insert(key, Some(value)),
        MapDiff::Update { key, value } => m.insert(key, Some(value)),
        MapDiff::Remove { key } => m.remove(key),
        MapDiff::Clear {} => Map::empty(),
    }
}

/// The slots after a change of the source whose every value was made into
/// a signal and polled once, each value standing as `(first value, signal)`.
pub open spec fn started_after<K, T, S>(m: Map<K, Option<S>>, d: MapDiff<K, (T, S)>) -> Map<K, Option<S>> {
    match d {
        MapDiff::Replace { entries } => filled(entries_map(entries@).map_values(|p: (T, S)| p.1)),
        MapDiff::Insert { key, value } => m.insert(key, Some(value.1)),
        MapDiff::Update { key, value } => m.insert(key, Some(value.1)),
        MapDiff::Remove { key } => m.remove(key),
        MapDiff::Clear {} => Map::empty(),
    }
}

/// `told` is the change `d` with each `(first value, signal)` pair replaced
/// by the first value, and with a clone of each key it carries a value for.
pub open spec fn told_firsts<K: Clone, T, S>(d: MapDiff<K, (T, S)>, told: MapDiff<K, T>) -> bool {
    match (d, told) {
        (MapDiff::Replace { entries: e1 }, MapDiff::Replace { entries: e2 }) => {
            &&& e1@.len() == e2@.len()
            &&& forall|i: int| 0 <= i < e1@.len() ==>
                cloned((#[trigger] e1@[i]).0, e2@[i].0) && e2@[i].1 == e1@[i].1.0
        },
        (MapDiff::Insert { key: k1, value: v1 }, MapDiff::Insert { key: k2, value: v2 }) =>
            cloned(k1, k2) && v2 == v1.0,
        (MapDiff::Update { key: k1, value: v1 }, MapDiff::Update { key: k2, value: v2 }) =>
            cloned(k1, k2) && v2 == v1.0,
        (MapDiff::Remove { key: k1 }, MapDiff::Remove { key: k2 }) => k1 == k2,
        (MapDiff::Clear {}, MapDiff::Clear {}) => true,
        _ => false,
    }
}

/// Takes in one change of the source of a map of value signals, each value
/// of which was made into a signal and polled once for its first value:
/// the signals fill the slots of their keys, the slots follow the change,
/// and the change to tell carries the first values.
pub fn source_change<K: Ord + Clone, T, S>(slots: &mut SignalSlots<K, S>, change: MapDiff<K, (T, S)>) -> (told: MapDiff<K, T>)
    requires
        change matches MapDiff::Update { key, value: _ } ==> old(slots)@.contains_key(key),
    ensures
        final(slots)@ == started_after(old(slots)@, change),
        told_firsts(change, told),
        change matches MapDiff::Replace { entries } ==> {
            &&& final(slots)@.dom() == entry_keys(entries@).to_set()
            &&& forall|k: K| #[trigger] final(slots)@.contains_key(k) ==> final(slots)@[k] is Some
        },
        change matches MapDiff::Insert { key, value } ==> final(slots)@ == old(slots)@.insert(key, Some(value.1)),
        change matches MapDiff::Update { key, value } ==> final(slots)@ == old(slots)@.insert(key, Some(value.1)),
        change matches MapDiff::Remove { key } ==> final(slots)@ == old(slots)@.remove(key),
        change is Clear ==> final(slots)@.dom() == Set::<K>::empty(),
{
    match change {
        MapDiff::Replace { entries } => {
            let ghost e = entries@;
            let mut told: Vec<(K, T)> = Vec::new();
            let mut started: Vec<(K, S)> = Vec::new();
            for entry in it: entries.into_iter()
                invariant
                    it.seq() == e,
                    told@.len() == it.index(),
                    started@.len() == it.index(),
                    forall|i: int| 0 <= i < told@.len() ==> {
                        &&& cloned((#[trigger] e[i]).0, told@[i].0)
                        &&& told@[i].1 == e[i].1.0
                        &&& started@[i] == (e[i].0, e[i].1.1)
                    },
            {
                let (k, (t, sig)) = entry;
                told.push((k.clone(), t));
                started.push((k, sig));
            }
            let ghost st = started@;
            proof {
                let g = |p: (T, S)| p.1;
                assert forall|i: int| 0 <= i < e.len() implies (#[trigger] st[i]) == (e[i].0, g(e[i].1)) by {}
                lemma_entries_map_map_values(e, st, g);
            }
            slots.follow(MapDiff::Replace { entries: started });
            proof {
                lemma_entries_map_dom_is_keys(e);
                assert(slots@.dom() =~= entries_map(e).dom());
            }
            MapDiff::Replace { entries: told }
        },
        MapDiff::Insert { key, value } => {
            let (t, sig) = value;
            let k = key.clone();
            slots.follow(MapDiff::Insert { key, value: sig });
            MapDiff::Insert { key: k, value: t }
        },
        MapDiff::Update { key, value } => {
            let (t, sig) = value;
            let k = key.clone();
            slots.follow(MapDiff::Update { key, value: sig });
            MapDiff::Update { key: k, value: t }
        },
        MapDiff::Remove { key } => {
            slots.remove(&key);
            MapDiff::Remove { key }
        },
        MapDiff::Clear {} => {
            slots.follow(MapDiff::Clear {});
            MapDiff::Clear {}
        },
    }
}

/// Takes in one poll of `signal`, the signal of the slot of `key`, taken
/// out of it: a new value is told as an update (under a clone of `key`) and
/// the signal goes back; a signal that ended leaves its slot empty; a
/// signal with nothing yet goes back and is reported as still running.
pub fn inner_polled<K: Ord + Clone, S, T>(
    slots: &mut SignalSlots<K, S>,
    key: K,
    signal: S,
    polled: PollState<Option<T>>,
    pending: &mut PendingBuilder<MapDiff<K, T>>,
) -> (running: bool)
    requires
        old(slots)@.contains_key(key),
    ensures
        running == (polled is Pending),
        match polled {
            PollState::Ready(Some(v)) => {
                &&& final(slots)@ == old(slots)@.insert(key, Some(signal))
                &&& final(pending).items().len() == old(pending).items().len() + 1
                &&& final(pending).items().drop_last() == old(pending).items()
                &&& final(pending).items().last() matches MapDiff::Update { key: k, value: x }
                &&& cloned(key, k)
                &&& x == v
            },
            PollState::Ready(None) => {
                &&& final(slots)@ == old(slots)@
                &&& final(pending).items() == old(pending).items()
            },
            PollState::Pending => {
                &&& final(slots)@ == old(slots)@.insert(key, Some(signal))
                &&& final(pending).items() == old(pending).items()
            },
        },
{
    match polled {
        PollState::Ready(Some(v)) => {
            pending.push(MapDiff::Update { key: key.clone(), value: v });
            slots.put(key, signal);
            false
        },
        PollState::Ready(None) => false,
        PollState::Pending => {
            slots.put(key, signal);
            true
        },
    }
}

/// `a` and `b` are the same kind of change on the same keys, in the same
/// order, whatever values they carry.
pub open spec fn same_keys<K, A, B>(a: MapDiff<K, A>, b: MapDiff<K, B>) -> bool {
    match (a, b) {
        (MapDiff::Replace { entries: e1 }, MapDiff::Replace { entries: e2 }) => entry_keys(e1@) == entry_keys(e2@),
        (MapDiff::Insert { key: k1, value: _ }, MapDiff::Insert { key: k2, value: _ }) => k1 == k2,
        (MapDiff::Update { key: k1, value: _ }, MapDiff::Update { key: k2, value: _ }) => k1 == k2,
        (MapDiff::Remove { key: k1 }, MapDiff::Remove { key: k2 }) => k1 == k2,
        (MapDiff::Clear {}, MapDiff::Clear {}) => true,
        _ => false,
    }
}

/// The keys of the map of some entries are the keys they list.
proof fn lemma_entries_map_dom_is_keys<K, V>(s: Seq<(K, V)>)
    ensures
        entries_map(s).dom() == entry_keys(s).to_set(),
    decreases s.len(),
{
    if s.len() > 0 {
        lemma_entries_map_dom_is_keys(s.drop_last());
        let ks = entry_keys(s);
        assert(entry_keys(s.drop_last()) =~= ks.drop_last());
        assert(ks =~= ks.drop_last().push(s.last().0));
        assert forall|k: K| ks.contains(k) <==> (ks.drop_last().contains(k) || k == s.last().0) by {
            if ks.contains(k) && k != s.last().0 {
                let j = choose|j: int| 0 <= j < ks.len() && ks[j] == k;
                assert(j < ks.len() - 1);
                assert(ks.drop_last()[j] == k);
            }
            if ks.drop_last().contains(k) {
                let j = choose|j: int| 0 <= j < ks.drop_last().len() && ks.drop_last()[j] == k;
                assert(ks[j] == k);
            }
            if k == s.last().0 {
                assert(ks[ks.len() - 1] == k);
            }
        }
        assert(entries_map(s).dom() =~= ks.to_set());
    } else {
        assert(entries_map(s).dom() =~= entry_keys(s).to_set());
    }
}

/// The keys of the map of some entries are the keys listed.
proof fn lemma_entries_map_dom<K, A, B>(s1: Seq<(K, A)>, s2: Seq<(K, B)>)
    requires
        entry_keys(s1) == entry_keys(s2),
    ensures
        entries_map(s1).dom() == entries_map(s2).dom(),
    decreases s1.len(),
{
    assert(s1.len() == entry_keys(s1).len());
    assert(s2.len() == entry_keys(s2).len());
    if s1.len() > 0 {
        assert(entry_keys(s1.drop_last()) =~= entry_keys(s1).drop_last());
        assert(entry_keys(s2.drop_last()) =~= entry_keys(s2).drop_last());
        lemma_entries_map_dom(s1.drop_last(), s2.drop_last());
        assert(s1.last().0 == entry_keys(s1)[s1.len() - 1]);
        assert(s2.last().0 == entry_keys(s2)[s2.len() - 1]);
        assert(entries_map(s1).dom() =~= entries_map(s2).dom());
    } else {
        assert(entries_map(s1).dom() =~= entries_map(s2).dom());
    }
}

/// Law: slots that have the keys of a map keep having them when both follow
/// the same kind of change on the same keys, the map with its values and the
/// slots with the signals made of them.
pub proof fn lemma_slots_follow_keys<K, V, S>(m: Map<K, V>, slots: Map<K, Option<S>>, d: MapDiff<K, V>, ds: MapDiff<K, S>)
    requires
        slots.dom() == m.dom(),
        same_keys(d, ds),
    ensures
        slots_after(slots, ds).dom() == apply_map_diff(m, d).dom(),
{
    match (d, ds) {
        (MapDiff::Replace { entries: e1 }, MapDiff::Replace { entries: e2 }) => {
            lemma_entries_map_dom(e1@, e2@);
            assert(slots_after(slots, ds).dom() =~= entries_map(e2@).dom());
        },
        (MapDiff::Insert { key: k1, value: _ }, MapDiff::Insert { key: k2, value: _ }) => {
            assert(slots_after(slots, ds).dom() =~= apply_map_diff(m, d).dom());
        },
        (MapDiff::Update { key: k1, value: _ }, MapDiff::Update { key: k2, value: _ }) => {
            assert(slots_after(slots, ds).dom() =~= apply_map_diff(m, d).dom());
        },
        (MapDiff::Remove { key: k1 }, MapDiff::Remove { key: k2 }) => {
            assert(slots_after(slots, ds).dom() =~= apply_map_diff(m, d).dom());
        },
        _ => {
            assert(slots_after(slots, ds).dom() =~= apply_map_diff(m, d).dom());
        },
    }
}

/// Law: slots that have the keys of a map keep having them when the slots
/// take in, through `source_change`, a change on the same keys as the map's
/// change: in particular a replacement leaves the slots of exactly the keys
/// it lists.
pub proof fn lemma_started_follow_keys<K, V, T, S>(
    m: Map<K, V>,
    slots: Map<K, Option<S>>,
    d: MapDiff<K, V>,
    ds: MapDiff<K, (T, S)>,
)
    requires
        slots.dom() == m.dom(),
        same_keys(d, ds),
    ensures
        started_after(slots, ds).dom() == apply_map_diff(m, d).dom(),
{
    match (d, ds) {
        (MapDiff::Replace { entries: e1 }, MapDiff::Replace { entries: e2 }) => {
            lemma_entries_map_dom(e1@, e2@);
            assert(started_after(slots, ds).dom() =~= entries_map(e2@).dom());
        },
        _ => {
            assert(started_after(slots, ds).dom() =~= apply_map_diff(m, d).dom());
        },
    }
}

/// One slot per key of a map-valued signal, holding the signal made of the
/// key's value until that signal ends.
#[verifier::reject_recursive_types(K)]
#[verifier::reject_recursive_types(S)]
pub struct SignalSlots<K: Ord + Clone, S> {
    slots: BTreeMap<K, Option<S>>,
}

impl<K: Ord + Clone, S> View for SignalSlots<K, S> {
    type V = Map<K, Option<S>>;

    closed spec fn view(&self) -> Map<K, Option<S>> {
        self.slots@
    }
}

impl<K: Ord + Clone, S> SignalSlots<K, S> {
    #[verifier::type_invariant]
    closed spec fn wf(&self) -> bool {
        lawful_keys::<K>()
    }

    /// No slots.
    pub fn new() -> (s: Self)
        requires
            lawful_keys::<K>(),
        ensures
            s@ == Map::<K, Option<S>>::empty(),
    {
        SignalSlots { slots: BTreeMap::new() }
    }

    /// Takes the slots out, leaving none, to work on them.
    fn take_slots(&mut self) -> (slots: BTreeMap<K, Option<S>>)
        ensures
            slots@ == old(self)@,
            lawful_keys::<K>(),
    {
        proof { use_type_invariant(&*self); }
        let mut slots: BTreeMap<K, Option<S>> = BTreeMap::new();
        std::mem::swap(&mut slots, &mut self.slots);
        slots
    }

    /// Whether `key` has a slot.
    pub fn contains(&self, key: &K) -> (b: bool)
        ensures
            b == self@.contains_key(*key),
    {
        proof { use_type_invariant(self); }
        self.slots.contains_key(key)
    }

    /// Follows the change `d`, whose values are the signals made of the
    /// values of a change of the map-valued signal.
    pub fn follow(&mut self, d: MapDiff<K, S>)
        requires
            d matches MapDiff::Update { key, value: _ } ==> old(self)@.contains_key(key),
        ensures
            final(self)@ == slots_after(old(self)@, d),
    {
        let mut slots = self.take_slots();
        match d {
            MapDiff::Replace { entries } => {
                slots.clear();
                let ghost s = entries@;
                assert(slots@ =~= filled(entries_map(s.take(0))));
                for e in it: entries.into_iter()
                    invariant
                        it.seq() == s,
                        lawful_keys::<K>(),
                        slots@ == filled(entries_map(s.take(it.index() as int))),
                {
                    let (k, v) = e;
                    slots.insert(k, Some(v));
                    proof {
                        let t = s.take(it.index() as int + 1);
                        assert(t.last() == (k, v));
                        assert(t.drop_last() =~= s.take(it.index() as int));
                        assert(entries_map(t) == entries_map(s.take(it.index() as int)).insert(k, v));
                        assert(filled(entries_map(t)) =~=
                            filled(entries_map(s.take(it.index() as int))).insert(k, Some(v)));
                    }
                }
                assert(s.take(s.len() as int) =~= s);
            },
            MapDiff::Insert { key, value } => {
                slots.insert(key, Some(value));
            },
            MapDiff::Update { key, value } => {
                slots.insert(key, Some(value));
            },
            MapDiff::Remove { key } => {
                slots.remove(&key);
            },
            MapDiff::Clear {} => {
                slots.clear();
            },
        }
        self.slots = slots;
    }

    /// The keys that have a slot, in increasing order (when clones give back
    /// equal keys).
    pub fn keys(&self) -> (out: Vec<K>)
        ensures
            out@.len() == self@.dom().len(),
            clone_faithful::<K>() ==> {
                &&& out@.to_set() == self@.dom()
                &&& increasing_seq(out@)
            },
    {
        proof { use_type_invariant(self); }
        let mut out: Vec<K> = Vec::new();
        let ghost listing = self.slots.iter().remaining();
        for kv in it: self.slots.iter()
            invariant
                it.seq() == listing,
                out@.len() == it.index(),
                forall|j: int| 0 <= j < it.index() ==> cloned(*(#[trigger] listing[j]).0, out@[j]),
        {
            let (k, _) = kv;
            out.push(k.clone());
        }
        proof {
            let ks = listing.map_values(|kv: (&K, &Option<S>)| *kv.0);
            assert(listing.len() == self@.dom().len());
            if clone_faithful::<K>() {
                assert forall|j: int| 0 <= j < out@.len() implies (#[trigger] out@[j]) == ks[j] by {
                    assert(cloned(*listing[j].0, out@[j]));
                }
                assert(out@ =~= ks);
                assert forall|k: K| #[trigger] out@.to_set().contains(k) implies self@.contains_key(k) by {
                    let j = choose|j: int| 0 <= j < out@.len() && out@[j] == k;
                    assert(self@.contains_key(*listing[j].0));
                }
                assert forall|k: K| #[trigger] self@.contains_key(k) implies out@.to_set().contains(k) by {
                    assert(listing.contains((&k, &self@[k])));
                    let j = choose|j: int| 0 <= j < listing.len() && listing[j] == (&k, &self@[k]);
                    assert(out@[j] == k);
                }
                assert(out@.to_set() =~= self@.dom());
            }
        }
        out
    }

    /// Takes the signal out of the slot of `key`, leaving the slot empty.
    pub fn take(&mut self, key: K) -> (out: Option<S>)
        ensures
            old(self)@.contains_key(key) ==> final(self)@ == old(self)@.insert(key, None) && out == old(self)@[key],
            !old(self)@.contains_key(key) ==> final(self)@ == old(self)@ && out is None,
    {
        let mut slots = self.take_slots();
        let out = match slots.remove(&key) {
            Some(slot) => {
                slots.insert(key, None);
                slot
            },
            None => None,
        };
        self.slots = slots;
        out
    }

    /// Removes the slot of `key`, if there is one.
    pub fn remove(&mut self, key: &K)
        ensures
            final(self)@ == old(self)@.remove(*key),
    {
        let mut slots = self.take_slots();
        slots.remove(key);
        self.slots = slots;
    }

    /// Puts `signal` in the slot of `key`.
    pub fn put(&mut self, key: K, signal: S)
        ensures
            final(self)@ == old(self)@.insert(key, Some(signal)),
    {
        let mut slots = self.take_slots();
        slots.insert(key, Some(signal));
        self.slots = slots;
    }
}

} // verus!
