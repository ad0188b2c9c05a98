use vstd::prelude::*;
use std::collections::BTreeMap;
use futures_channel::mpsc::{UnboundedReceiver, UnboundedSender};
use vstd::laws_cmp::obeys_cmp;
use vstd::std_specs::btree::increasing_seq;
use vstd::std_specs::iter::IteratorSpec;

use crate::channel::{send_message, unbounded_channel};
use crate::diff::{
    apply_map_diff, clone_diff, entry_keys, diff_fits, lemma_same_diff_fits, lemma_stream_fits_push, stream_fits, entries_map, lemma_entries_map_of_listing, clone_faithful, diff_cloned, lemma_cloned_is_same, lemma_replay_push,
    lemma_same_diff_same_effect, replay_map_diffs, same_diff, MapDiff,
};

verus! {

/// The `Ord` impl of `K` is a total order, as `BTreeMap` expects of its keys.
pub open spec fn lawful_keys<K: Ord>() -> bool {
    obeys_cmp::<K>()
}

/// `new_h` is `old_h` without the subscribers that went away, in the same
/// order, each remaining one handed exactly one more message; `idx` tells
/// where each remaining one stood before.
pub open spec fn handed_one_more<K, V>(
    old_h: Seq<Seq<MapDiff<K, V>>>,
    new_h: Seq<Seq<MapDiff<K, V>>>,
    idx: Seq<int>,
) -> bool {
    &&& idx.len() == new_h.len()
    &&& forall|j: int| 0 <= j < idx.len() ==> 0 <= #[trigger] idx[j] < old_h.len()
    &&& forall|j1: int, j2: int| 0 <= j1 < j2 < idx.len() ==> idx[j1] < idx[j2]
    &&& forall|j: int| 0 <= j < new_h.len() ==> {
        &&& (#[trigger] new_h[j]).len() == old_h[idx[j]].len() + 1
        &&& new_h[j].drop_last() == old_h[idx[j]]
    }
}

/// Every subscriber still listening was handed one more message, the same
/// change as `ideal` when clones give back equal values.
pub open spec fn notified_of<K: Clone, V: Clone>(
    old_h: Seq<Seq<MapDiff<K, V>>>,
    new_h: Seq<Seq<MapDiff<K, V>>>,
    ideal: MapDiff<K, V>,
) -> bool {
    &&& exists|idx: Seq<int>| #[trigger] handed_one_more(old_h, new_h, idx)
    &&& clone_faithful::<K>() && clone_faithful::<V>() ==> forall|j: int|
        0 <= j < new_h.len() ==> same_diff(ideal, (#[trigger] new_h[j]).last())
}

/// Every subscriber still listening was handed one more message: a
/// replacement listing, in increasing key order, clones of clones of the
/// entries of `m` (a copy of one list of clones for each subscriber) and,
/// when clones give back equal values, the entries of `m` themselves.
pub open spec fn notified_of_entries<K: Ord + Clone, V: Clone>(
    old_h: Seq<Seq<MapDiff<K, V>>>,
    new_h: Seq<Seq<MapDiff<K, V>>>,
    m: Map<K, V>,
) -> bool {
    &&& exists|idx: Seq<int>| #[trigger] handed_one_more(old_h, new_h, idx)
    &&& forall|j: int| 0 <= j < new_h.len() ==> {
        &&& (#[trigger] new_h[j]).last() is Replace
        &&& exists|e: Seq<(K, V)>| #[trigger] lists_clones_of(e, m) && pairs_cloned(e, new_h[j].last()->entries@)
    }
    &&& clone_faithful::<K>() && clone_faithful::<V>() ==> forall|j: int| 0 <= j < new_h.len() ==> {
        &&& (#[trigger] new_h[j]).last() is Replace
        &&& entries_map(new_h[j].last()->entries@) == m
        &&& increasing_seq(entry_keys(new_h[j].last()->entries@))
    }
}

/// `p` lists the entries of `m`, each once, in increasing key order.
pub open spec fn key_ordered_listing<K, V>(p: Seq<(K, V)>, m: Map<K, V>) -> bool {
    &&& increasing_seq(entry_keys(p))
    &&& entries_map(p) == m
}

/// `e` holds, in order, a clone of each pair of `p`.
pub open spec fn pairs_cloned<K: Clone, V: Clone>(p: Seq<(K, V)>, e: Seq<(K, V)>) -> bool {
    &&& p.len() == e.len()
    &&& forall|i: int| 0 <= i < p.len() ==> cloned(#[trigger] p[i].0, e[i].0) && cloned(p[i].1, e[i].1)
}

/// `e` holds a clone of each entry of `m`, in increasing key order.
pub open spec fn lists_clones_of<K: Clone, V: Clone>(e: Seq<(K, V)>, m: Map<K, V>) -> bool {
    exists|p: Seq<(K, V)>| #[trigger] key_ordered_listing(p, m) && pairs_cloned(p, e)
}

/// The map an observer holds after applying `d` to `m`: like
/// `apply_map_diff`, except that a replacement keeps the entries it does not list.
pub open spec fn observed_apply<K, V>(m: Map<K, V>, d: MapDiff<K, V>) -> Map<K, V> {
    match d {
        MapDiff::Replace { entries } => m.union_prefer_right(entries_map(entries@)),
        _ => apply_map_diff(m, d),
    }
}

/// Law: an observer holds what the map holds after a change, unless the
/// change is a replacement that leaves out a key the observer holds.
pub proof fn lemma_observed_apply_agrees<K, V>(m: Map<K, V>, d: MapDiff<K, V>)
    requires
        d matches MapDiff::Replace { entries } ==> m.dom().subset_of(entries_map(entries@).dom()),
    ensures
        observed_apply(m, d) == apply_map_diff(m, d),
{
    match d {
        MapDiff::Replace { entries } => {
            assert(m.union_prefer_right(entries_map(entries@)) =~= entries_map(entries@));
        },
        _ => {},
    }
}

/// The map an observer holds after applying the changes `ds`, in order, to `m`.
pub open spec fn observed_replay<K, V>(m: Map<K, V>, ds: Seq<MapDiff<K, V>>) -> Map<K, V>
    decreases ds.len(),
{
    if ds.len() == 0 {
        m
    } else {
        observed_apply(observed_replay(m, ds.drop_last()), ds.last())
    }
}

/// Law: an observer that starts from `m` and applies the changes `ds`
/// holds what the source holds after them, unless some replacement leaves
/// out a key the observer holds when it arrives.
pub proof fn lemma_observed_replay_agrees<K, V>(m: Map<K, V>, ds: Seq<MapDiff<K, V>>)
    requires
        forall|i: int| 0 <= i < ds.len() ==>
            ((#[trigger] ds[i]) matches MapDiff::Replace { entries } ==>
                observed_replay(m, ds.take(i)).dom().subset_of(entries_map(entries@).dom())),
    ensures
        observed_replay(m, ds) == replay_map_diffs(m, ds),
    decreases ds.len(),
{
    if ds.len() > 0 {
        let rest = ds.drop_last();
        assert forall|i: int| 0 <= i < rest.len() implies
            ((#[trigger] rest[i]) matches MapDiff::Replace { entries } ==>
                observed_replay(m, rest.take(i)).dom().subset_of(entries_map(entries@).dom())) by {
            assert(rest[i] == ds[i]);
            assert(rest.take(i) =~= ds.take(i));
        }
        lemma_observed_replay_agrees(m, rest);
        let n = ds.len() - 1;
        assert(ds[n] == ds.last());
        assert(ds.take(n) =~= rest);
        lemma_observed_apply_agrees(replay_map_diffs(m, rest), ds.last());
    }
}

/// The state of an observable ordered map: its entries and the channels of
/// the subscribers that listen to its changes.
#[verifier::reject_recursive_types(K)]
#[verifier::reject_recursive_types(V)]
pub struct MutableBTreeState<K: Ord + Clone, V: Clone> {
    values: BTreeMap<K, V>,
    senders: Vec<UnboundedSender<MapDiff<K, V>>>,
    handed: Ghost<Seq<Seq<MapDiff<K, V>>>>,
}

impl<K: Ord + Clone, V: Clone> View for MutableBTreeState<K, V> {
    type V = Map<K, V>;

    closed spec fn view(&self) -> Map<K, V> {
        self.values@
    }
}

impl<K: Ord + Clone, V: Clone> MutableBTreeState<K, V> {
    /// The messages handed so far to each subscriber still listening, in the
    /// order of subscription.
    pub closed spec fn handed(&self) -> Seq<Seq<MapDiff<K, V>>> {
        self.handed@
    }

    /// Every subscriber, replaying from the empty map the changes it was
    /// handed, holds the current entries (when clones give back equal values).
    pub open spec fn subscribers_agree(&self) -> bool {
        clone_faithful::<K>() && clone_faithful::<V>() ==> forall|i: int|
            0 <= i < self.handed().len() ==> {
                &&& replay_map_diffs(Map::empty(), #[trigger] self.handed()[i]) == self@
                &&& stream_fits(Map::empty(), self.handed()[i])
            }
    }

    #[verifier::type_invariant]
    pub closed spec fn wf(&self) -> bool {
        &&& lawful_keys::<K>()
        &&& self.handed@.len() == self.senders@.len()
        &&& self.subscribers_agree()
    }

    /// The state holding `values`, with no subscriber.
    pub fn new(values: BTreeMap<K, V>) -> (s: Self)
        requires
            lawful_keys::<K>(),
        ensures
            s@ == values@,
            s.handed() == Seq::<Seq<MapDiff<K, V>>>::empty(),
    {
        MutableBTreeState { values, senders: Vec::new(), handed: Ghost(Seq::empty()) }
    }

    /// The entries, read-only.
    pub fn values(&self) -> (m: &BTreeMap<K, V>)
        ensures
            m@ == self@,
    {
        &self.values
    }

    fn take_parts(&mut self) -> (parts: (BTreeMap<K, V>, Vec<UnboundedSender<MapDiff<K, V>>>, Ghost<Seq<Seq<MapDiff<K, V>>>>))
        ensures
            parts.0@ == old(self)@,
            parts.2@ == old(self).handed(),
            parts.2@.len() == parts.1@.len(),
            old(self).subscribers_agree(),
            lawful_keys::<K>(),
    {
        proof { use_type_invariant(&*self); }
        let mut taken = MutableBTreeState { values: BTreeMap::new(), senders: Vec::new(), handed: Ghost(Seq::empty()) };
        std::mem::swap(self, &mut taken);
        let MutableBTreeState { values, senders, handed } = taken;
        (values, senders, handed)
    }

    /// Keeps `sender` among the subscribers when its channel took the
    /// message (`queued`), and drops it otherwise.
    fn keep_if_queued(kept: &mut Vec<UnboundedSender<MapDiff<K, V>>>, sender: UnboundedSender<MapDiff<K, V>>, queued: bool)
        ensures
            queued ==> final(kept)@ == old(kept)@.push(sender),
            !queued ==> final(kept)@ == old(kept)@,
    {
        if queued {
            kept.push(sender);
        }
    }

    /// Hands a copy of `proto` to each sender but the last, which gets
    /// `proto` itself (so `n` subscribers take `n - 1` clones), and keeps
    /// the senders whose channel took the message.
    fn broadcast(
        senders: Vec<UnboundedSender<MapDiff<K, V>>>,
        handed: Ghost<Seq<Seq<MapDiff<K, V>>>>,
        proto: MapDiff<K, V>,
    ) -> (res: (Vec<UnboundedSender<MapDiff<K, V>>>, Ghost<Seq<Seq<MapDiff<K, V>>>>, Ghost<Seq<int>>))
        requires
            handed@.len() == senders@.len(),
        ensures
            res.1@.len() == res.0@.len(),
            handed_one_more(handed@, res.1@, res.2@),
            forall|j: int| 0 <= j < res.1@.len() ==> diff_cloned(proto, (#[trigger] res.1@[j]).last()),
            forall|j: int| 0 <= j < res.2@.len() && res.2@[j] == handed@.len() - 1 ==>
                (#[trigger] res.1@[j]).last() == proto,
    {
        let ghost old_h = handed@;
        let ghost gproto = proto;
        let n = senders.len();
        let mut kept: Vec<UnboundedSender<MapDiff<K, V>>> = Vec::new();
        let ghost mut new_h: Seq<Seq<MapDiff<K, V>>> = Seq::empty();
        let ghost mut idx: Seq<int> = Seq::empty();
        let mut proto_slot: Option<MapDiff<K, V>> = Some(proto);
        let mut i: usize = 0;
        for sender in it: senders.into_iter()
            invariant
                n == old_h.len(),
                i == it.index(),
                i <= n,
                it.seq().len() == n,
                kept@.len() == new_h.len(),
                i < n ==> proto_slot == Some(gproto),
                handed_one_more(old_h, new_h, idx),
                forall|j: int| 0 <= j < new_h.len() ==> diff_cloned(gproto, (#[trigger] new_h[j]).last()),
                forall|j: int| 0 <= j < idx.len() ==> idx[j] < i,
                forall|j: int| 0 <= j < idx.len() && idx[j] == n - 1 ==> (#[trigger] new_h[j]).last() == gproto,
        {
            let msg = if i + 1 < n {
                clone_diff(proto_slot.as_ref().unwrap())
            } else {
                proto_slot.take().unwrap()
            };
            let ghost gmsg = msg;
            assert(diff_cloned(gproto, gmsg));
            proof {
                if i + 1 == n {
                    assert(gmsg == gproto);
                }
            }
            let queued = send_message(&sender, msg);
            Self::keep_if_queued(&mut kept, sender, queued);
            if queued {
                proof {
                    let ghost prev_h = new_h;
                    let ghost prev_idx = idx;
                    new_h = new_h.push(old_h[i as int].push(gmsg));
                    idx = idx.push(i as int);
                    assert forall|j: int| 0 <= j < new_h.len() implies {
                        &&& (#[trigger] new_h[j]).len() == old_h[idx[j]].len() + 1
                        &&& new_h[j].drop_last() == old_h[idx[j]]
                        &&& diff_cloned(gproto, new_h[j].last())
                        &&& (idx[j] == n - 1 ==> new_h[j].last() == gproto)
                    } by {
                        if j < prev_h.len() {
                            assert(new_h[j] == prev_h[j]);
                            assert(idx[j] == prev_idx[j]);
                        } else {
                            assert(old_h[i as int].push(gmsg).drop_last() =~= old_h[i as int]);
                        }
                    }
                }
            }
            i = i + 1;
        }
        (kept, Ghost(new_h), Ghost(idx))
    }


    /// Tells every subscriber of `ideal`, passing on `proto`, a copy of it,
    /// and puts the state back together around `values`.
    fn finish_change(
        &mut self,
        values: BTreeMap<K, V>,
        senders: Vec<UnboundedSender<MapDiff<K, V>>>,
        handed: Ghost<Seq<Seq<MapDiff<K, V>>>>,
        proto: Option<MapDiff<K, V>>,
        Ghost(old_values): Ghost<Map<K, V>>,
        Ghost(ideal): Ghost<MapDiff<K, V>>,
    )
        requires
            lawful_keys::<K>(),
            handed@.len() == senders@.len(),
            clone_faithful::<K>() && clone_faithful::<V>() ==> forall|i: int|
                0 <= i < handed@.len() ==> {
                    &&& replay_map_diffs(Map::empty(), #[trigger] handed@[i]) == old_values
                    &&& stream_fits(Map::empty(), handed@[i])
                },
            proto is Some ==> (clone_faithful::<K>() && clone_faithful::<V>() ==> {
                &&& diff_cloned(ideal, proto->0)
                &&& apply_map_diff(old_values, ideal) == values@
                &&& diff_fits(old_values, ideal)
            }),
            proto is None ==> senders@.len() == 0,
        ensures
            final(self)@ == values@,
            notified_of(handed@, final(self).handed(), ideal),
            proto matches Some(p) ==> forall|j: int| 0 <= j < final(self).handed().len() ==>
                diff_cloned(p, (#[trigger] final(self).handed()[j]).last()),
    {
        match proto {
            Some(p) => {
                let ghost gp = p;
                let (kept, new_h, idx) = Self::broadcast(senders, handed, p);
                proof {
                    Self::lemma_agree_after(old_values, values@, handed@, new_h@, idx@, gp, ideal);
                }
                *self = MutableBTreeState { values, senders: kept, handed: new_h };
            },
            None => {
                proof {
                    assert(handed_one_more(handed@, handed@, Seq::<int>::empty()));
                }
                *self = MutableBTreeState { values, senders, handed };
            },
        }
    }

    /// Removes every entry, telling the subscribers if there was any.
    pub fn clear(&mut self)
        ensures
            final(self)@ == Map::<K, V>::empty(),
            old(self)@.is_empty() ==> final(self).handed() == old(self).handed(),
            !old(self)@.is_empty() ==> notified_of(old(self).handed(), final(self).handed(), MapDiff::Clear {}),
    {
        let ghost old_values = self@;
        let (mut values, senders, handed) = self.take_parts();
        if !values.is_empty() {
            values.clear();
            let proto = if senders.len() == 0 { None } else { Some(MapDiff::Clear {}) };
            self.finish_change(values, senders, handed, proto, Ghost(old_values), Ghost(MapDiff::Clear {}));
        } else {
            assert(values@ =~= Map::<K, V>::empty());
            *self = MutableBTreeState { values, senders, handed };
        }
    }

    /// Removes the entry of `key`, giving back its value, and tells the
    /// subscribers if there was one.
    pub fn remove(&mut self, key: &K) -> (removed: Option<V>)
        ensures
            final(self)@ == old(self)@.remove(*key),
            removed == (if old(self)@.contains_key(*key) { Some(old(self)@[*key]) } else { None }),
            !old(self)@.contains_key(*key) ==> final(self).handed() == old(self).handed(),
            old(self)@.contains_key(*key) ==> notified_of(old(self).handed(), final(self).handed(), MapDiff::Remove { key: *key }),
    {
        let ghost old_values = self@;
        let (mut values, senders, handed) = self.take_parts();
        let removed = values.remove(key);
        match removed {
            Some(value) => {
                let proto = if senders.len() == 0 { None } else { Some(MapDiff::Remove { key: key.clone() }) };
                self.finish_change(values, senders, handed, proto, Ghost(old_values), Ghost(MapDiff::Remove { key: *key }));
                Some(value)
            },
            None => {
                assert(values@ =~= old_values);
                *self = MutableBTreeState { values, senders, handed };
                None
            },
        }
    }

    /// Sets the value of `key`, giving back the value it replaced, and tells
    /// the subscribers: an update where the key was present, an insertion
    /// otherwise.
    pub fn insert(&mut self, key: K, value: V) -> (replaced: Option<V>)
        ensures
            final(self)@ == old(self)@.insert(key, value),
            replaced == (if old(self)@.contains_key(key) { Some(old(self)@[key]) } else { None }),
            old(self)@.contains_key(key) ==> notified_of(old(self).handed(), final(self).handed(), MapDiff::Update { key, value }),
            !old(self)@.contains_key(key) ==> notified_of(old(self).handed(), final(self).handed(), MapDiff::Insert { key, value }),
    {
        let ghost old_values = self@;
        let ghost gk = key;
        let ghost gv = value;
        let (mut values, senders, handed) = self.take_parts();
        let copy = if senders.len() == 0 { None } else { Some((key.clone(), value.clone())) };
        let replaced = values.insert(key, value);
        let is_update = replaced.is_some();
        let proto = match copy {
            Some((k, v)) => if is_update { Some(MapDiff::Update { key: k, value: v }) } else { Some(MapDiff::Insert { key: k, value: v }) },
            None => None,
        };
        if is_update {
            self.finish_change(values, senders, handed, proto, Ghost(old_values), Ghost(MapDiff::Update { key: gk, value: gv }));
        } else {
            self.finish_change(values, senders, handed, proto, Ghost(old_values), Ghost(MapDiff::Insert { key: gk, value: gv }));
        }
        replaced
    }


    /// The entries of `values` in increasing key order, keys and values cloned.
    pub fn entries(values: &BTreeMap<K, V>) -> (out: Vec<(K, V)>)
        requires
            lawful_keys::<K>(),
        ensures
            out@.len() == values@.len(),
            lists_clones_of(out@, values@),
            clone_faithful::<K>() && clone_faithful::<V>() ==> {
                &&& entries_map(out@) == values@
                &&& increasing_seq(entry_keys(out@))
            },
    {
        let mut out: Vec<(K, V)> = Vec::new();
        let ghost listing = values.iter().remaining();
        for kv in it: values.iter()
            invariant
                it.seq() == listing,
                out@.len() == it.index(),
                forall|j: int| 0 <= j < it.index() ==> {
                    &&& cloned(*(#[trigger] listing[j]).0, out@[j].0)
                    &&& cloned(*listing[j].1, out@[j].1)
                },
        {
            let (k, v) = kv;
            out.push((k.clone(), v.clone()));
        }
        proof {
            let keys = listing.map_values(|kv: (&K, &V)| *kv.0);
            let p = listing.map_values(|kv: (&K, &V)| (*kv.0, *kv.1));
            assert(listing.len() == values@.dom().len());
            assert forall|j: int| 0 <= j < p.len() implies
                values@.contains_key((#[trigger] p[j]).0) && values@[p[j].0] == p[j].1 by {
                assert(values@.contains_key(*listing[j].0));
            }
            assert forall|k: K| #[trigger] values@.contains_key(k) implies
                exists|j: int| 0 <= j < p.len() && (#[trigger] p[j]).0 == k by {
                assert(listing.contains((&k, &values@[k])));
                let j = choose|j: int| 0 <= j < listing.len() && listing[j] == (&k, &values@[k]);
                assert(p[j].0 == k);
            }
            lemma_entries_map_of_listing(p, values@);
            assert(entry_keys(p) =~= keys);
            assert(key_ordered_listing(p, values@));
            assert forall|i: int| 0 <= i < p.len() implies cloned(#[trigger] p[i].0, out@[i].0) && cloned(p[i].1, out@[i].1) by {
                assert(cloned(*listing[i].0, out@[i].0));
            }
            assert(pairs_cloned(p, out@));
            if clone_faithful::<K>() && clone_faithful::<V>() {
                assert forall|j: int| 0 <= j < out@.len() implies (#[trigger] out@[j]) == p[j] by {
                    assert(cloned(*listing[j].0, out@[j].0));
                    assert(cloned(*listing[j].1, out@[j].1));
                }
                assert(out@ =~= p);
            }
        }
        out
    }

    /// Puts `values` in place of every entry and hands each subscriber the
    /// new entries.
    pub fn replace(&mut self, values: BTreeMap<K, V>)
        ensures
            final(self)@ == values@,
            notified_of_entries(old(self).handed(), final(self).handed(), values@),
    {
        let ghost old_values = self@;
        let (_, senders, handed) = self.take_parts();
        let listed = if senders.len() == 0 { None } else { Some(Self::entries(&values)) };
        let ghost glisted = listed;
        let ghost ideal = match glisted {
            Some(e) => MapDiff::Replace { entries: e },
            None => MapDiff::Clear {},
        };
        let proto = match listed {
            Some(e) => Some(MapDiff::Replace { entries: e }),
            None => None,
        };
        let ghost gvalues = values@;
        self.finish_change(values, senders, handed, proto, Ghost(old_values), Ghost(ideal));
        proof {
            if clone_faithful::<K>() && clone_faithful::<V>() {
                let h = self.handed();
                assert forall|j: int| 0 <= j < h.len() implies {
                    &&& (#[trigger] h[j]).last() is Replace
                    &&& entries_map(h[j].last()->entries@) == gvalues
                    &&& increasing_seq(entry_keys(h[j].last()->entries@))
                } by {
                    assert(same_diff(ideal, h[j].last()));
                }
            }
        }
    }


    /// Adds a subscriber and gives back the receiving half of its channel.
    /// The subscriber is first handed the current entries, unless there are none.
    pub fn signal_map(&mut self) -> (receiver: UnboundedReceiver<MapDiff<K, V>>)
        ensures
            final(self)@ == old(self)@,
            final(self).handed().len() == old(self).handed().len() + 1,
            final(self).handed().drop_last() == old(self).handed(),
            old(self)@.is_empty() ==> final(self).handed().last() == Seq::<MapDiff<K, V>>::empty(),
            !old(self)@.is_empty() ==> {
                &&& final(self).handed().last().len() == 1
                &&& final(self).handed().last()[0] is Replace
                &&& lists_clones_of(final(self).handed().last()[0]->entries@, old(self)@)
                &&& clone_faithful::<K>() && clone_faithful::<V>() ==> {
                    &&& entries_map(final(self).handed().last()[0]->entries@) == old(self)@
                    &&& increasing_seq(entry_keys(final(self).handed().last()[0]->entries@))
                }
            },
    {
        let ghost old_values = self@;
        let (values, mut senders, Ghost(handed)) = self.take_parts();
        let (sender, receiver) = unbounded_channel();
        let ghost mut first: Seq<MapDiff<K, V>> = Seq::empty();
        if !values.is_empty() {
            let entries = Self::entries(&values);
            let ghost ge = entries;
            let _ = send_message(&sender, MapDiff::Replace { entries });
            proof {
                first = seq![MapDiff::Replace { entries: ge }];
                assert(first.drop_last() =~= Seq::<MapDiff<K, V>>::empty());
                assert(first.last() == MapDiff::Replace { entries: ge });
                assert(first.drop_last().len() == 0);
                assert(replay_map_diffs(Map::empty(), first.drop_last()) == Map::<K, V>::empty());
                if clone_faithful::<K>() && clone_faithful::<V>() {
                    assert(replay_map_diffs(Map::empty(), first) == values@);
                    assert(stream_fits(Map::empty(), first.drop_last()));
                    assert(diff_fits(Map::empty(), MapDiff::Replace { entries: ge }));
                    assert(stream_fits(Map::empty(), first));
                }
            }
        } else {
            assert(values@ =~= Map::<K, V>::empty());
            assert(replay_map_diffs(Map::empty(), first) == values@);
            assert(stream_fits(Map::empty(), first));
        }
        senders.push(sender);
        let ghost new_h = handed.push(first);
        assert(new_h.drop_last() =~= handed);
        proof {
            if clone_faithful::<K>() && clone_faithful::<V>() {
                assert forall|i: int| 0 <= i < new_h.len() implies {
                    &&& replay_map_diffs(Map::empty(), #[trigger] new_h[i]) == values@
                    &&& stream_fits(Map::empty(), new_h[i])
                } by {
                    if i < handed.len() {
                        assert(new_h[i] == handed[i]);
                    } else {
                        assert(new_h[i] == first);
                    }
                }
            }
        }
        *self = MutableBTreeState { values, senders, handed: Ghost(new_h) };
        receiver
    }


    /// A state's keys are lawful.
    pub proof fn lemma_lawful_keys(&self)
        requires
            self.wf(),
        ensures
            lawful_keys::<K>(),
    {
    }

    /// Law: every subscriber still listening, replaying from the empty map
    /// the changes it was handed, holds the current entries; and each change
    /// it was handed fitted the map it came to (when clones give back equal
    /// values).
    pub proof fn lemma_subscribers_replay(&self, i: int)
        requires
            self.wf(),
            clone_faithful::<K>(),
            clone_faithful::<V>(),
            0 <= i < self.handed().len(),
        ensures
            replay_map_diffs(Map::empty(), self.handed()[i]) == self@,
            stream_fits(Map::empty(), self.handed()[i]),
    {
    }

    /// Applies a change received from another map-valued signal, as an
    /// observer of it does: a replacement sets each listed entry in turn,
    /// keeping the entries it does not list.
    pub fn apply_observed(&mut self, diff: MapDiff<K, V>)
        requires
            diff matches MapDiff::Remove { key } ==> old(self)@.contains_key(key),
        ensures
            final(self)@ == observed_apply(old(self)@, diff),
    {
        match diff {
            MapDiff::Replace { entries } => {
                let ghost s = entries@;
                let ghost start = self@;
                for e in it: entries.into_iter()
                    invariant
                        it.seq() == s,
                        self@ == start.union_prefer_right(entries_map(s.take(it.index() as int))),
                {
                    let (k, v) = e;
                    self.insert(k, v);
                    proof {
                        let t = s.take(it.index() as int + 1);
                        assert(t.drop_last() =~= s.take(it.index() as int));
                        assert(start.union_prefer_right(entries_map(t)) =~=
                            start.union_prefer_right(entries_map(s.take(it.index() as int))).insert(k, v));
                    }
                }
                assert(s.take(s.len() as int) =~= s);
            },
            MapDiff::Insert { key, value } => {
                self.insert(key, value);
            },
            MapDiff::Update { key, value } => {
                self.insert(key, value);
            },
            MapDiff::Remove { key } => {
                self.remove(&key);
            },
            MapDiff::Clear {} => {
                self.clear();
            },
        }
    }

    /// Restores the state from its parts after a change to every entry from
    /// `old_values` to `values` of which each subscriber was told by one more
    /// message, a copy of `proto`.
    proof fn lemma_agree_after(
        old_values: Map<K, V>,
        values: Map<K, V>,
        old_h: Seq<Seq<MapDiff<K, V>>>,
        new_h: Seq<Seq<MapDiff<K, V>>>,
        idx: Seq<int>,
        proto: MapDiff<K, V>,
        ideal: MapDiff<K, V>,
    )
        requires
            clone_faithful::<K>() && clone_faithful::<V>() ==> forall|i: int|
                0 <= i < old_h.len() ==> {
                    &&& replay_map_diffs(Map::empty(), #[trigger] old_h[i]) == old_values
                    &&& stream_fits(Map::empty(), old_h[i])
                },
            handed_one_more(old_h, new_h, idx),
            forall|j: int| 0 <= j < new_h.len() ==> diff_cloned(proto, (#[trigger] new_h[j]).last()),
            clone_faithful::<K>() && clone_faithful::<V>() ==> diff_cloned(ideal, proto),
            clone_faithful::<K>() && clone_faithful::<V>() ==> apply_map_diff(old_values, ideal) == values,
            clone_faithful::<K>() && clone_faithful::<V>() ==> diff_fits(old_values, ideal),
        ensures
            clone_faithful::<K>() && clone_faithful::<V>() ==> forall|i: int|
                0 <= i < new_h.len() ==> {
                    &&& replay_map_diffs(Map::empty(), #[trigger] new_h[i]) == values
                    &&& stream_fits(Map::empty(), new_h[i])
                },
            notified_of(old_h, new_h, ideal),
    {
        if clone_faithful::<K>() && clone_faithful::<V>() {
            assert forall|j: int| 0 <= j < new_h.len() implies same_diff(ideal, (#[trigger] new_h[j]).last()) by {
                assert(diff_cloned(proto, new_h[j].last()));
                lemma_cloned_is_same(ideal, proto);
                lemma_cloned_is_same(proto, new_h[j].last());
            }
        }
        if clone_faithful::<K>() && clone_faithful::<V>() {
            assert forall|i: int| 0 <= i < new_h.len() implies {
                &&& replay_map_diffs(Map::empty(), #[trigger] new_h[i]) == values
                &&& stream_fits(Map::empty(), new_h[i])
            } by {
                let last = new_h[i].last();
                assert(new_h[i] =~= new_h[i].drop_last().push(last));
                lemma_replay_push(Map::empty(), new_h[i].drop_last(), last);
                lemma_cloned_is_same(ideal, proto);
                lemma_cloned_is_same(proto, last);
                lemma_same_diff_same_effect(old_values, ideal, last);
                lemma_same_diff_fits(old_values, ideal, last);
                lemma_stream_fits_push(Map::empty(), new_h[i].drop_last(), last);
            }
        }
    }
}

} // verus!
