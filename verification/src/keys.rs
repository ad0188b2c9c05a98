use vstd::prelude::*;
use vstd::std_specs::btree::increasing_seq;

use crate::diff::{
    apply_map_diff, apply_vec_diff, clone_faithful, diff_fits, entries_map, entry_keys, lemma_entries_map_lookup,
    replay_map_diffs, stream_fits, MapDiff, VecDiff,
};
use crate::order::{
    compare_keys, key_lt, lemma_increasing_is_sorted, lemma_key_order, lemma_sorted_no_duplicates,
    ordered_keys, sorted_keys, KeyOrder,
};

verus! {

/// `i` is where `key` goes in the sorted `keys`: every key before it is
/// smaller, every key from it on is larger.
pub open spec fn is_insert_index<K: Ord>(keys: Seq<K>, key: K, i: int) -> bool {
    &&& 0 <= i <= keys.len()
    &&& forall|j: int| 0 <= j < i ==> key_lt(#[trigger] keys[j], key)
    &&& forall|j: int| i <= j < keys.len() ==> key_lt(key, #[trigger] keys[j])
}

/// The place of `key` among the sorted `keys`, where it is absent.
pub open spec fn insert_index<K: Ord>(keys: Seq<K>, key: K) -> int {
    choose|i: int| is_insert_index(keys, key, i)
}

/// The place of `key` in `keys`, where it is present.
pub open spec fn key_index<K>(keys: Seq<K>, key: K) -> int {
    choose|i: int| 0 <= i < keys.len() && keys[i] == key
}

/// A map-valued signal's change that the sorted keys `keys` can follow:
/// insertions of absent keys, removals of present ones, updates of present
/// ones where `updates_need_key`, and replacements listed in increasing key order.
pub open spec fn keys_accept<K: Ord, V>(keys: Seq<K>, d: MapDiff<K, V>, updates_need_key: bool) -> bool {
    match d {
        MapDiff::Replace { entries } => increasing_seq(entry_keys(entries@)),
        MapDiff::Insert { key, value: _ } => !keys.contains(key),
        MapDiff::Update { key, value: _ } => updates_need_key ==> keys.contains(key),
        MapDiff::Remove { key } => keys.contains(key),
        MapDiff::Clear {} => true,
    }
}

/// The sorted keys after the change `d`.
pub open spec fn keys_after<K: Ord, V>(keys: Seq<K>, d: MapDiff<K, V>) -> Seq<K> {
    match d {
        MapDiff::Replace { entries } => entry_keys(entries@),
        MapDiff::Insert { key, value: _ } => keys.insert(insert_index(keys, key), key),
        MapDiff::Update { .. } => keys,
        MapDiff::Remove { key } => keys.remove(key_index(keys, key)),
        MapDiff::Clear {} => Seq::empty(),
    }
}

/// `keys` lists the keys of `m` once each, in increasing order.
pub open spec fn lists_keys_of<K: Ord, V>(keys: Seq<K>, m: Map<K, V>) -> bool {
    &&& sorted_keys(keys)
    &&& forall|k: K| #[trigger] keys.contains(k) <==> m.contains_key(k)
}

/// `b` could be what `a.clone()` gives back, element by element.
pub open spec fn seq_cloned<A: Clone>(a: Seq<A>, b: Seq<A>) -> bool {
    &&& a.len() == b.len()
    &&& forall|i: int| 0 <= i < a.len() ==> cloned(#[trigger] a[i], b[i])
}

/// The change of the listed keys, `out`, that follows the map-valued
/// signal's change `d` of the keys `keys`.
pub open spec fn keys_diff_for<K: Ord + Clone, V>(keys: Seq<K>, d: MapDiff<K, V>, out: Option<VecDiff<K>>) -> bool {
    match d {
        MapDiff::Replace { entries } => out matches Some(VecDiff::Replace { values })
            && seq_cloned(entry_keys(entries@), values@),
        MapDiff::Insert { key, value: _ } => out matches Some(VecDiff::InsertAt { index, value })
            && index == insert_index(keys, key) && cloned(key, value),
        MapDiff::Update { .. } => out is None,
        MapDiff::Remove { key } => out matches Some(VecDiff::RemoveAt { index }) && index == key_index(keys, key),
        MapDiff::Clear {} => out == Some(VecDiff::<K>::Clear {}),
    }
}

/// The change of the listed entries, `out`, that follows the map-valued
/// signal's change `d` of the keys `keys`.
pub open spec fn entries_diff_for<K: Ord + Clone, V>(keys: Seq<K>, d: MapDiff<K, V>, out: VecDiff<(K, V)>) -> bool {
    match d {
        MapDiff::Replace { entries } => out matches VecDiff::Replace { values } && {
            &&& values@.len() == entries@.len()
            &&& forall|i: int| 0 <= i < values@.len() ==>
                cloned((#[trigger] entries@[i]).0, values@[i].0) && values@[i].1 == entries@[i].1
        },
        MapDiff::Insert { key, value } => out matches VecDiff::InsertAt { index, value: e }
            && index == insert_index(keys, key) && cloned(key, e.0) && e.1 == value,
        MapDiff::Update { key, value } => out matches VecDiff::UpdateAt { index, value: e }
            && index == key_index(keys, key) && e == (key, value),
        MapDiff::Remove { key } => out matches VecDiff::RemoveAt { index } && index == key_index(keys, key),
        MapDiff::Clear {} => out == VecDiff::<(K, V)>::Clear {},
    }
}

/// Clones every key of `keys`, in order.
fn clone_keys<K: Clone>(keys: &Vec<K>) -> (out: Vec<K>)
    ensures
        seq_cloned(keys@, out@),
{
    let mut out: Vec<K> = Vec::new();
    let mut i: usize = 0;
    while i < keys.len()
        invariant
            i <= keys@.len(),
            out@.len() == i,
            forall|j: int| 0 <= j < i ==> cloned(#[trigger] keys@[j], out@[j]),
        decreases keys@.len() - i,
    {
        out.push(keys[i].clone());
        i = i + 1;
    }
    out
}

/// There is only one place for an absent key among sorted keys.
proof fn lemma_insert_index_unique<K: Ord>(keys: Seq<K>, key: K, i: int)
    requires
        ordered_keys::<K>(),
        is_insert_index(keys, key, i),
    ensures
        insert_index(keys, key) == i,
{
    lemma_key_order::<K>();
    let c = insert_index(keys, key);
    assert(is_insert_index(keys, key, c));
    if c < i {
        assert(key_lt(keys[c], key));
        assert(key_lt(key, keys[c]));
    } else if i < c {
        assert(key_lt(keys[i], key));
        assert(key_lt(key, keys[i]));
    }
}

/// There is only one place for a present key among sorted keys.
proof fn lemma_key_index_unique<K: Ord>(keys: Seq<K>, key: K, i: int)
    requires
        ordered_keys::<K>(),
        sorted_keys(keys),
        0 <= i < keys.len(),
        keys[i] == key,
    ensures
        key_index(keys, key) == i,
{
    lemma_sorted_no_duplicates(keys);
    let c = key_index(keys, key);
    assert(0 <= c < keys.len() && keys[c] == key);
}

/// Putting an absent key at its place keeps keys sorted.
proof fn lemma_sorted_insert<K: Ord>(keys: Seq<K>, key: K, i: int)
    requires
        ordered_keys::<K>(),
        sorted_keys(keys),
        is_insert_index(keys, key, i),
    ensures
        sorted_keys(keys.insert(i, key)),
{
    lemma_key_order::<K>();
    let s = keys.insert(i, key);
    assert forall|a: int, b: int| 0 <= a < b < s.len() implies key_lt(s[a], s[b]) by {
        if b < i {
            assert(s[a] == keys[a] && s[b] == keys[b]);
        } else if b == i {
            assert(s[a] == keys[a]);
        } else if a < i {
            assert(s[a] == keys[a] && s[b] == keys[b - 1]);
            assert(key_lt(keys[a], key));
        } else if a == i {
            assert(s[b] == keys[b - 1]);
        } else {
            assert(s[a] == keys[a - 1] && s[b] == keys[b - 1]);
        }
    }
}

/// Taking a key out keeps keys sorted.
proof fn lemma_sorted_remove<K: Ord>(keys: Seq<K>, i: int)
    requires
        sorted_keys(keys),
        0 <= i < keys.len(),
    ensures
        sorted_keys(keys.remove(i)),
{
    let s = keys.remove(i);
    assert forall|a: int, b: int| 0 <= a < b < s.len() implies key_lt(s[a], s[b]) by {
        let a0 = if a < i { a } else { a + 1 };
        let b0 = if b < i { b } else { b + 1 };
        assert(s[a] == keys[a0] && s[b] == keys[b0]);
    }
}


/// An absent key has a place among sorted keys.
proof fn lemma_insert_index_exists<K: Ord>(keys: Seq<K>, key: K)
    requires
        ordered_keys::<K>(),
        sorted_keys(keys),
        !keys.contains(key),
    ensures
        is_insert_index(keys, key, insert_index(keys, key)),
    decreases keys.len(),
{
    lemma_key_order::<K>();
    if keys.len() == 0 {
        assert(is_insert_index(keys, key, 0));
    } else {
        let t = keys.drop_last();
        assert(sorted_keys(t));
        assert(!t.contains(key)) by {
            if t.contains(key) {
                let j = choose|j: int| 0 <= j < t.len() && t[j] == key;
                assert(keys[j] == key);
            }
        }
        lemma_insert_index_exists(t, key);
        let i = insert_index(t, key);
        let last = keys.last();
        assert(last != key) by {
            assert(keys[keys.len() - 1] == last);
        }
        if key_lt(last, key) {
            assert forall|j: int| 0 <= j < keys.len() implies key_lt(#[trigger] keys[j], key) by {
                if j < keys.len() - 1 {
                    assert(key_lt(keys[j], last));
                }
            }
            assert(is_insert_index(keys, key, keys.len() as int));
        } else {
            assert(key_lt(key, last));
            assert forall|j: int| i <= j < keys.len() implies key_lt(key, #[trigger] keys[j]) by {
                if j < keys.len() - 1 {
                    assert(t[j] == keys[j]);
                }
            }
            assert forall|j: int| 0 <= j < i implies key_lt(#[trigger] keys[j], key) by {
                assert(t[j] == keys[j]);
            }
            assert(is_insert_index(keys, key, i));
        }
    }
}

/// Law: keys that list the keys of `m` in increasing order accept every
/// change that fits `m`, and list the keys of the changed map after it.
pub proof fn lemma_keys_follow_map<K: Ord + Clone, V>(keys: Seq<K>, m: Map<K, V>, d: MapDiff<K, V>)
    requires
        ordered_keys::<K>(),
        lists_keys_of(keys, m),
        diff_fits(m, d),
    ensures
        keys_accept(keys, d, true),
        lists_keys_of(keys_after(keys, d), apply_map_diff(m, d)),
{
    lemma_key_order::<K>();
    match d {
        MapDiff::Replace { entries } => {
            let ks = entry_keys(entries@);
            lemma_increasing_is_sorted(ks);
            assert forall|k: K| #[trigger] ks.contains(k) <==> entries_map(entries@).contains_key(k) by {
                lemma_entries_map_lookup(entries@, k);
                if ks.contains(k) {
                    let j = choose|j: int| 0 <= j < ks.len() && ks[j] == k;
                    assert(entries@[j].0 == k);
                }
                if entries_map(entries@).contains_key(k) {
                    let j = choose|j: int| 0 <= j < entries@.len() && (#[trigger] entries@[j]).0 == k;
                    assert(ks[j] == k);
                }
            }
        },
        MapDiff::Insert { key, value } => {
            lemma_insert_index_exists(keys, key);
            let i = insert_index(keys, key);
            lemma_sorted_insert(keys, key, i);
            let s = keys.insert(i, key);
            assert forall|k: K| #[trigger] s.contains(k) <==> m.insert(key, value).contains_key(k) by {
                if s.contains(k) {
                    let j = choose|j: int| 0 <= j < s.len() && s[j] == k;
                    if j < i {
                        assert(s[j] == keys[j]);
                        assert(keys.contains(k));
                    } else if j > i {
                        assert(s[j] == keys[j - 1]);
                        assert(keys.contains(k));
                    } else {
                        assert(s[j] == key);
                    }
                }
                if m.insert(key, value).contains_key(k) {
                    if k == key {
                        assert(s[i] == key);
                        assert(s.contains(k));
                    } else {
                        assert(m.contains_key(k));
                        assert(keys.contains(k));
                        let j = choose|j: int| 0 <= j < keys.len() && keys[j] == k;
                        if j < i {
                            assert(s[j] == keys[j]);
                            assert(s.contains(k));
                        } else {
                            assert(s[j + 1] == keys[j]);
                            assert(s.contains(k));
                        }
                    }
                }
            }
        },
        MapDiff::Update { key, value } => {
            assert forall|k: K| #[trigger] keys.contains(k) <==> m.insert(key, value).contains_key(k) by {}
        },
        MapDiff::Remove { key } => {
            assert(keys.contains(key));
            let i = key_index(keys, key);
            assert(0 <= i < keys.len() && keys[i] == key);
            lemma_sorted_remove(keys, i);
            lemma_sorted_no_duplicates(keys);
            let s = keys.remove(i);
            assert forall|k: K| #[trigger] s.contains(k) <==> m.remove(key).contains_key(k) by {
                if s.contains(k) {
                    let j = choose|j: int| 0 <= j < s.len() && s[j] == k;
                    if j < i {
                        assert(s[j] == keys[j]);
                        assert(keys[j] != key);
                        assert(keys.contains(k));
                    } else {
                        assert(s[j] == keys[j + 1]);
                        assert(keys[j + 1] != key);
                        assert(keys.contains(k));
                    }
                }
                if m.remove(key).contains_key(k) {
                    assert(m.contains_key(k));
                    assert(keys.contains(k));
                    let j = choose|j: int| 0 <= j < keys.len() && keys[j] == k;
                    assert(j != i);
                    if j < i {
                        assert(s[j] == keys[j]);
                        assert(s.contains(k));
                    } else {
                        assert(s[j - 1] == keys[j]);
                        assert(s.contains(k));
                    }
                }
            }
        },
        MapDiff::Clear {} => {
            assert forall|k: K| #[trigger] Seq::<K>::empty().contains(k) <==> Map::<K, V>::empty().contains_key(k) by {}
        },
    }
}

/// Law: applied to the old keys, the vector change that `keys_change` tells
/// gives the new keys, when clones of keys give back equal keys.
pub proof fn lemma_keys_diff_applies<K: Ord + Clone, V>(keys: Seq<K>, d: MapDiff<K, V>, out: Option<VecDiff<K>>)
    requires
        clone_faithful::<K>(),
        keys_diff_for(keys, d, out),
    ensures
        out matches Some(vd) ==> apply_vec_diff(keys, vd) == keys_after(keys, d),
        out is None ==> keys_after(keys, d) == keys,
{
    match d {
        MapDiff::Replace { entries } => {
            let vd = out->0;
            let values = vd->Replace_values;
            assert forall|i: int| 0 <= i < values@.len() implies values@[i] == entry_keys(entries@)[i] by {
                assert(cloned(entry_keys(entries@)[i], values@[i]));
            }
            assert(values@ =~= entry_keys(entries@));
        },
        MapDiff::Insert { key, value: _ } => {
            if let Some(VecDiff::InsertAt { index: _, value }) = out {
                assert(cloned(key, value));
            }
        },
        _ => {},
    }
}

/// The entries of `m` in the order of `keys`.
pub open spec fn entry_listing<K, V>(keys: Seq<K>, m: Map<K, V>) -> Seq<(K, V)> {
    keys.map_values(|k: K| (k, m[k]))
}

/// Law: applied to the old entries, listed in key order, the vector change
/// that `entries_change` tells gives the entries of the changed map, listed
/// in key order, when clones of keys give back equal keys.
pub proof fn lemma_entries_diff_applies<K: Ord + Clone, V>(
    keys: Seq<K>,
    m: Map<K, V>,
    d: MapDiff<K, V>,
    out: VecDiff<(K, V)>,
)
    requires
        ordered_keys::<K>(),
        clone_faithful::<K>(),
        lists_keys_of(keys, m),
        diff_fits(m, d),
        entries_diff_for(keys, d, out),
    ensures
        apply_vec_diff(entry_listing(keys, m), out) == entry_listing(keys_after(keys, d), apply_map_diff(m, d)),
{
    lemma_keys_follow_map(keys, m, d);
    lemma_key_order::<K>();
    let m2 = apply_map_diff(m, d);
    let k2 = keys_after(keys, d);
    let before = entry_listing(keys, m);
    let after = entry_listing(k2, m2);
    match d {
        MapDiff::Replace { entries } => {
            let values = out->Replace_values;
            assert(apply_vec_diff(before, out) == values@);
            let ks = entry_keys(entries@);
            lemma_increasing_is_sorted(ks);
            lemma_sorted_no_duplicates(ks);
            assert forall|i: int| 0 <= i < values@.len() implies values@[i] == after[i] by {
                assert(cloned(entries@[i].0, values@[i].0));
                lemma_entries_map_lookup(entries@, entries@[i].0);
                let j = choose|j: int| 0 <= j < entries@.len() && (#[trigger] entries@[j]).0 == entries@[i].0
                    && entries@[j].1 == entries_map(entries@)[entries@[i].0];
                assert(ks[i] == ks[j]);
            }
            assert(values@ =~= after);
        },
        MapDiff::Insert { key, value } => {
            lemma_insert_index_exists(keys, key);
            let i = insert_index(keys, key);
            let e = out->InsertAt_value;
            assert(cloned(key, e.0));
            assert forall|j: int| 0 <= j < after.len() implies after[j] == before.insert(i, e)[j] by {
                if j < i {
                    assert(k2[j] == keys[j]);
                    assert(keys[j] != key) by { assert(key_lt(keys[j], key)); }
                } else if j > i {
                    assert(k2[j] == keys[j - 1]);
                    assert(keys[j - 1] != key) by { assert(key_lt(key, keys[j - 1])); }
                }
            }
            assert(after =~= before.insert(i, e));
        },
        MapDiff::Update { key, value } => {
            let i = key_index(keys, key);
            assert(0 <= i < keys.len() && keys[i] == key);
            lemma_sorted_no_duplicates(keys);
            let e = out->UpdateAt_value;
            assert(cloned(key, e.0));
            assert forall|j: int| 0 <= j < after.len() implies after[j] == before.update(i, e)[j] by {
                if j != i {
                    assert(keys[j] != key);
                }
            }
            assert(after =~= before.update(i, e));
        },
        MapDiff::Remove { key } => {
            let i = key_index(keys, key);
            assert(0 <= i < keys.len() && keys[i] == key);
            lemma_sorted_no_duplicates(keys);
            assert forall|j: int| 0 <= j < after.len() implies after[j] == before.remove(i)[j] by {
                if j < i {
                    assert(k2[j] == keys[j]);
                    assert(keys[j] != key);
                } else {
                    assert(k2[j] == keys[j + 1]);
                    assert(keys[j + 1] != key);
                }
            }
            assert(after =~= before.remove(i));
        },
        MapDiff::Clear {} => {
            assert(after =~= Seq::<(K, V)>::empty());
        },
    }
}


/// The sorted keys after the changes `ds`, in order.
pub open spec fn replay_keys<K: Ord, V>(keys: Seq<K>, ds: Seq<MapDiff<K, V>>) -> Seq<K>
    decreases ds.len(),
{
    if ds.len() == 0 {
        keys
    } else {
        keys_after(replay_keys(keys, ds.drop_last()), ds.last())
    }
}

/// Law: sorted keys that list the keys of `m`, fed a stream of changes that
/// fits `m` (such as every stream a `MutableBTreeState` hands a subscriber,
/// from the empty map), list the keys of the map the stream leads to.
pub proof fn lemma_keys_follow_stream<K: Ord + Clone, V>(keys: Seq<K>, m: Map<K, V>, ds: Seq<MapDiff<K, V>>)
    requires
        ordered_keys::<K>(),
        lists_keys_of(keys, m),
        stream_fits(m, ds),
    ensures
        lists_keys_of(replay_keys(keys, ds), replay_map_diffs(m, ds)),
    decreases ds.len(),
{
    if ds.len() > 0 {
        lemma_keys_follow_stream(keys, m, ds.drop_last());
        lemma_keys_follow_map(replay_keys(keys, ds.drop_last()), replay_map_diffs(m, ds.drop_last()), ds.last());
    }
}

/// The vector reached from `v` by the vector changes that were told
/// (`Some`) among `outs`, in order.
pub open spec fn replay_told<A>(v: Seq<A>, outs: Seq<Option<VecDiff<A>>>) -> Seq<A>
    decreases outs.len(),
{
    if outs.len() == 0 {
        v
    } else {
        match outs.last() {
            Some(vd) => apply_vec_diff(replay_told(v, outs.drop_last()), vd),
            None => replay_told(v, outs.drop_last()),
        }
    }
}

/// The vector reached from `v` by the vector changes `vds`, in order.
pub open spec fn replay_vec_diffs<A>(v: Seq<A>, vds: Seq<VecDiff<A>>) -> Seq<A>
    decreases vds.len(),
{
    if vds.len() == 0 {
        v
    } else {
        apply_vec_diff(replay_vec_diffs(v, vds.drop_last()), vds.last())
    }
}

/// Law: the vector of keys a subscriber builds from every change the keys
/// signal told, starting from keys that list the keys of `m`, lists the keys
/// of the map that the map-valued signal's changes `ds` lead to, when the
/// changes fit `m`, each told change is what `keys_change` tells for the
/// keys at that point, and clones of keys give back equal keys.
pub proof fn lemma_keys_signal_follows_stream<K: Ord + Clone, V>(
    keys: Seq<K>,
    m: Map<K, V>,
    ds: Seq<MapDiff<K, V>>,
    outs: Seq<Option<VecDiff<K>>>,
)
    requires
        ordered_keys::<K>(),
        clone_faithful::<K>(),
        lists_keys_of(keys, m),
        stream_fits(m, ds),
        outs.len() == ds.len(),
        forall|i: int| 0 <= i < ds.len() ==> keys_diff_for(replay_keys(keys, ds.take(i)), #[trigger] ds[i], outs[i]),
    ensures
        replay_told(keys, outs) == replay_keys(keys, ds),
        lists_keys_of(replay_told(keys, outs), replay_map_diffs(m, ds)),
    decreases ds.len(),
{
    lemma_keys_follow_stream(keys, m, ds);
    if ds.len() > 0 {
        let n = ds.len() - 1;
        let rest = ds.drop_last();
        assert forall|i: int| 0 <= i < rest.len() implies
            keys_diff_for(replay_keys(keys, rest.take(i)), #[trigger] rest[i], outs.drop_last()[i]) by {
            assert(rest.take(i) =~= ds.take(i));
            assert(rest[i] == ds[i]);
        }
        lemma_keys_signal_follows_stream(keys, m, rest, outs.drop_last());
        assert(ds.take(n) =~= rest);
        assert(ds[n] == ds.last());
        lemma_keys_diff_applies(replay_keys(keys, rest), ds.last(), outs.last());
    }
}

/// Law: the vector of entries a subscriber builds from every change the
/// entries signal told, starting from the entries of `m` listed in key
/// order, is the entries of the map that the changes `ds` lead to, listed in
/// key order, when the changes fit `m`, each told change is what
/// `entries_change` tells for the keys at that point, and clones of keys
/// give back equal keys.
pub proof fn lemma_entries_signal_follows_stream<K: Ord + Clone, V>(
    keys: Seq<K>,
    m: Map<K, V>,
    ds: Seq<MapDiff<K, V>>,
    outs: Seq<VecDiff<(K, V)>>,
)
    requires
        ordered_keys::<K>(),
        clone_faithful::<K>(),
        lists_keys_of(keys, m),
        stream_fits(m, ds),
        outs.len() == ds.len(),
        forall|i: int| 0 <= i < ds.len() ==> entries_diff_for(replay_keys(keys, ds.take(i)), #[trigger] ds[i], outs[i]),
    ensures
        replay_vec_diffs(entry_listing(keys, m), outs) == entry_listing(replay_keys(keys, ds), replay_map_diffs(m, ds)),
    decreases ds.len(),
{
    if ds.len() > 0 {
        let n = ds.len() - 1;
        let rest = ds.drop_last();
        assert forall|i: int| 0 <= i < rest.len() implies
            entries_diff_for(replay_keys(keys, rest.take(i)), #[trigger] rest[i], outs.drop_last()[i]) by {
            assert(rest.take(i) =~= ds.take(i));
            assert(rest[i] == ds[i]);
        }
        lemma_entries_signal_follows_stream(keys, m, rest, outs.drop_last());
        lemma_keys_follow_stream(keys, m, rest);
        assert(ds.take(n) =~= rest);
        assert(ds[n] == ds.last());
        lemma_entries_diff_applies(replay_keys(keys, rest), replay_map_diffs(m, rest), ds.last(), outs.last());
    }
}

/// The keys of a map-valued signal, kept in increasing order, so that its
/// changes can be told as changes of a vector of keys or of entries.
#[verifier::reject_recursive_types(K)]
pub struct SortedKeys<K: Ord + Clone> {
    keys: Vec<K>,
}

impl<K: Ord + Clone> SortedKeys<K> {
    #[verifier::type_invariant]
    closed spec fn wf(&self) -> bool {
        &&& ordered_keys::<K>()
        &&& sorted_keys(self.keys@)
    }

    /// The keys, in increasing order.
    pub closed spec fn keys(&self) -> Seq<K> {
        self.keys@
    }

    /// No keys yet.
    pub fn new() -> (s: Self)
        requires
            ordered_keys::<K>(),
        ensures
            s.keys() == Seq::<K>::empty(),
    {
        SortedKeys { keys: Vec::new() }
    }



    /// Whether `key` is among the keys.
    pub fn contains(&self, key: &K) -> (b: bool)
        ensures
            b == self.keys().contains(*key),
    {
        proof {
            use_type_invariant(self);
            lemma_key_order::<K>();
        }
        match self.search(key) {
            Ok(i) => {
                assert(self.keys()[i as int] == *key);
                true
            },
            Err(i) => {
                proof {
                    if self.keys().contains(*key) {
                        let j = choose|j: int| 0 <= j < self.keys().len() && self.keys()[j] == *key;
                        if j < i {
                            assert(key_lt(self.keys()[j], *key));
                        } else {
                            assert(key_lt(*key, self.keys()[j]));
                        }
                    }
                }
                false
            },
        }
    }

    /// Whether the keys can follow `diff` (see `keys_accept`).
    pub fn accepts<V>(&self, diff: &MapDiff<K, V>, updates_need_key: bool) -> (b: bool)
        ensures
            b == keys_accept(self.keys(), *diff, updates_need_key),
    {
        proof {
            use_type_invariant(self);
            lemma_key_order::<K>();
        }
        match diff {
            MapDiff::Replace { entries } => {
                proof { lemma_increasing_is_sorted(entry_keys(entries@)); }
                let n = entries.len();
                if n == 0 {
                    assert(sorted_keys(entry_keys(entries@)));
                    return true;
                }
                let mut i: usize = 1;
                while i < n
                    invariant
                        ordered_keys::<K>(),
                        *diff == (MapDiff::<K, V>::Replace { entries: *entries }),
                        n == entries@.len(),
                        1 <= i <= n,
                        sorted_keys(entry_keys(entries@).take(i as int)),
                    decreases n - i,
                {
                    match compare_keys(&entries[i - 1].0, &entries[i].0) {
                        KeyOrder::Less => {
                            proof {
                                lemma_key_order::<K>();
                                let ks = entry_keys(entries@);
                                let t = ks.take(i as int + 1);
                                assert forall|a: int, b: int| 0 <= a < b < t.len() implies key_lt(t[a], t[b]) by {
                                    if b < i {
                                        assert(ks.take(i as int)[a] == t[a] && ks.take(i as int)[b] == t[b]);
                                    } else if a < i - 1 {
                                        assert(ks.take(i as int)[a] == t[a]);
                                        assert(ks.take(i as int)[i - 1] == ks[i - 1]);
                                        assert(key_lt(t[a], ks[i - 1]));
                                    }
                                }
                            }
                            i = i + 1;
                        },
                        _ => {
                            proof {
                                let ks = entry_keys(entries@);
                                assert(!key_lt(ks[i - 1], ks[i as int]));
                                if sorted_keys(ks) {
                                    assert(key_lt(ks[i - 1], ks[i as int]));
                                }
                                lemma_increasing_is_sorted(ks);
                            }
                            return false;
                        },
                    }
                }
                assert(entry_keys(entries@).take(n as int) =~= entry_keys(entries@));
                true
            },
            MapDiff::Insert { key, value: _ } => !self.contains(key),
            MapDiff::Update { key, value: _ } => !updates_need_key || self.contains(key),
            MapDiff::Remove { key } => self.contains(key),
            MapDiff::Clear {} => true,
        }
    }

    /// Follows the map-valued signal's change `diff` and tells how the
    /// vector of keys changes; an update changes no key and tells nothing.
    /// The keys kept are those of `diff`; the ones told are clones.
    pub fn keys_change<V>(&mut self, diff: MapDiff<K, V>) -> (out: Option<VecDiff<K>>)
        requires
            keys_accept(old(self).keys(), diff, false),
        ensures
            final(self).keys() == keys_after(old(self).keys(), diff),
            keys_diff_for(old(self).keys(), diff, out),
    {
        proof {
            use_type_invariant(&*self);
            lemma_key_order::<K>();
        }
        match diff {
            MapDiff::Replace { entries } => {
                let ghost s = entries@;
                let mut keys: Vec<K> = Vec::new();
                for e in it: entries.into_iter()
                    invariant
                        it.seq() == s,
                        keys@ == entry_keys(s.take(it.index() as int)),
                {
                    let (k, _) = e;
                    keys.push(k);
                    proof {
                        assert(entry_keys(s.take(it.index() as int + 1)) =~= entry_keys(s.take(it.index() as int)).push(s[it.index() as int].0));
                    }
                }
                proof {
                    assert(s.take(s.len() as int) =~= s);
                    lemma_increasing_is_sorted(entry_keys(s));
                }
                let values = clone_keys(&keys);
                self.keys = keys;
                Some(VecDiff::Replace { values })
            },
            MapDiff::Insert { key, value: _ } => {
                match self.search(&key) {
                    Ok(_) => {
                        proof { assert(self.keys().contains(key)); }
                        unreached()
                    },
                    Err(index) => {
                        let told = key.clone();
                        let mut keys: Vec<K> = Vec::new();
                        std::mem::swap(&mut self.keys, &mut keys);
                        proof {
                            lemma_insert_index_unique(keys@, key, index as int);
                            lemma_sorted_insert(keys@, key, index as int);
                        }
                        keys.insert(index, key);
                        self.keys = keys;
                        Some(VecDiff::InsertAt { index, value: told })
                    },
                }
            },
            MapDiff::Update { .. } => None,
            MapDiff::Remove { key } => {
                let index = self.find_present(&key);
                let mut keys: Vec<K> = Vec::new();
                std::mem::swap(&mut self.keys, &mut keys);
                proof {
                    lemma_key_index_unique(keys@, key, index as int);
                    lemma_sorted_remove(keys@, index as int);
                }
                keys.remove(index);
                self.keys = keys;
                Some(VecDiff::RemoveAt { index })
            },
            MapDiff::Clear {} => {
                self.keys = Vec::new();
                Some(VecDiff::Clear {})
            },
        }
    }

    /// Follows the map-valued signal's change `diff` and tells how the
    /// vector of entries changes. The keys kept are those of `diff`, which
    /// keeps them provably sorted whatever `K::clone` does; the keys told for
    /// a replacement or an insertion are clones, an update is told as it came,
    /// and the values told are those of `diff`.
    pub fn entries_change<V>(&mut self, diff: MapDiff<K, V>) -> (out: VecDiff<(K, V)>)
        requires
            keys_accept(old(self).keys(), diff, true),
        ensures
            final(self).keys() == keys_after(old(self).keys(), diff),
            entries_diff_for(old(self).keys(), diff, out),
    {
        proof {
            use_type_invariant(&*self);
            lemma_key_order::<K>();
        }
        match diff {
            MapDiff::Replace { entries } => {
                let ghost s = entries@;
                let mut keys: Vec<K> = Vec::new();
                let mut values: Vec<(K, V)> = Vec::new();
                for e in it: entries.into_iter()
                    invariant
                        it.seq() == s,
                        keys@ == entry_keys(s.take(it.index() as int)),
                        values@.len() == it.index(),
                        forall|i: int| 0 <= i < values@.len() ==>
                            cloned((#[trigger] s[i]).0, values@[i].0) && values@[i].1 == s[i].1,
                {
                    let (k, v) = e;
                    let told = k.clone();
                    keys.push(k);
                    values.push((told, v));
                    proof {
                        assert(entry_keys(s.take(it.index() as int + 1)) =~= entry_keys(s.take(it.index() as int)).push(s[it.index() as int].0));
                    }
                }
                proof {
                    assert(s.take(s.len() as int) =~= s);
                    lemma_increasing_is_sorted(entry_keys(s));
                }
                self.keys = keys;
                VecDiff::Replace { values }
            },
            MapDiff::Insert { key, value } => {
                match self.search(&key) {
                    Ok(_) => {
                        proof { assert(self.keys().contains(key)); }
                        unreached()
                    },
                    Err(index) => {
                        let told = key.clone();
                        let mut keys: Vec<K> = Vec::new();
                        std::mem::swap(&mut self.keys, &mut keys);
                        proof {
                            lemma_insert_index_unique(keys@, key, index as int);
                            lemma_sorted_insert(keys@, key, index as int);
                        }
                        keys.insert(index, key);
                        self.keys = keys;
                        VecDiff::InsertAt { index, value: (told, value) }
                    },
                }
            },
            MapDiff::Update { key, value } => {
                let index = self.find_present(&key);
                proof { lemma_key_index_unique(self.keys(), key, index as int); }
                VecDiff::UpdateAt { index, value: (key, value) }
            },
            MapDiff::Remove { key } => {
                let index = self.find_present(&key);
                let mut keys: Vec<K> = Vec::new();
                std::mem::swap(&mut self.keys, &mut keys);
                proof {
                    lemma_key_index_unique(keys@, key, index as int);
                    lemma_sorted_remove(keys@, index as int);
                }
                keys.remove(index);
                self.keys = keys;
                VecDiff::RemoveAt { index }
            },
            MapDiff::Clear {} => {
                self.keys = Vec::new();
                VecDiff::Clear {}
            },
        }
    }

    /// The place of a key that is present.
    fn find_present(&self, key: &K) -> (i: usize)
        requires
            self.keys().contains(*key),
        ensures
            i < self.keys().len(),
            self.keys()[i as int] == *key,
    {
        proof {
            use_type_invariant(self);
            lemma_key_order::<K>();
        }
        match self.search(key) {
            Ok(i) => i,
            Err(i) => {
                proof {
                    let j = choose|j: int| 0 <= j < self.keys().len() && self.keys()[j] == *key;
                    if j < i {
                        assert(key_lt(self.keys()[j], *key));
                    } else {
                        assert(key_lt(*key, self.keys()[j]));
                    }
                }
                unreached()
            },
        }
    }

    /// Finds `key`: where it is, or where it would go.
    fn search(&self, key: &K) -> (r: Result<usize, usize>)
        ensures
            r matches Ok(i) ==> i < self.keys().len() && self.keys()[i as int] == *key,
            r matches Err(i) ==> is_insert_index(self.keys(), *key, i as int),
    {
        proof {
            use_type_invariant(self);
            lemma_key_order::<K>();
        }
        let keys = &self.keys;
        let mut lo: usize = 0;
        let mut hi: usize = keys.len();
        while lo < hi
            invariant
                ordered_keys::<K>(),
                sorted_keys(keys@),
                keys@ == self.keys(),
                lo <= hi <= keys@.len(),
                forall|j: int| 0 <= j < lo ==> key_lt(#[trigger] keys@[j], *key),
                forall|j: int| hi <= j < keys@.len() ==> key_lt(*key, #[trigger] keys@[j]),
            decreases hi - lo,
        {
            let mid = lo + (hi - lo) / 2;
            match compare_keys(&keys[mid], key) {
                KeyOrder::Less => {
                    proof {
                        lemma_key_order::<K>();
                        assert forall|j: int| 0 <= j <= mid implies key_lt(#[trigger] keys@[j], *key) by {
                            if j < mid {
                                assert(key_lt(keys@[j], keys@[mid as int]));
                            }
                        }
                    }
                    lo = mid + 1;
                },
                KeyOrder::Equal => {
                    assert(keys@[mid as int] == *key);
                    return Ok(mid);
                },
                KeyOrder::Greater => {
                    proof {
                        lemma_key_order::<K>();
                        assert forall|j: int| mid <= j < keys@.len() implies key_lt(*key, #[trigger] keys@[j]) by {
                            if j > mid {
                                assert(key_lt(keys@[mid as int], keys@[j]));
                            }
                        }
                    }
                    hi = mid;
                },
            }
        }
        Err(lo)
    }
}

} // verus!
