use vstd::prelude::*;
use vstd::std_specs::btree::increasing_seq;

verus! {

/// A change to a map-valued signal.
#[derive(Debug, Clone, PartialEq, Eq)]
pub enum MapDiff<K, V> {
    Replace { entries: Vec<(K, V)> },
    Insert { key: K, value: V },
    Update { key: K, value: V },
    Remove { key: K },
    Clear {},
}

/// A change to a vector-valued signal.
#[derive(Debug, Clone, PartialEq, Eq)]
pub enum VecDiff<A> {
    Replace { values: Vec<A> },
    InsertAt { index: usize, value: A },
    UpdateAt { index: usize, value: A },
    RemoveAt { index: usize },
    Clear {},
}

/// The sequence obtained from `v` by the change `d`.
pub open spec fn apply_vec_diff<A>(v: Seq<A>, d: VecDiff<A>) -> Seq<A> {
    match d {
        VecDiff::Replace { values } => values@,
        VecDiff::InsertAt { index, value } => v.insert(index as int, value),
        VecDiff::UpdateAt { index, value } => v.update(index as int, value),
        VecDiff::RemoveAt { index } => v.remove(index as int),
        VecDiff::Clear {} => Seq::empty(),
    }
}

/// The map whose entries are `entries`, a later entry for a key taking the
/// place of an earlier one.
pub open spec fn entries_map<K, V>(entries: Seq<(K, V)>) -> Map<K, V>
    decreases entries.len(),
{
    if entries.len() == 0 {
        Map::empty()
    } else {
        entries_map(entries.drop_last()).insert(entries.last().0, entries.last().1)
    }
}

/// The map obtained from `m` by the change `d`.
pub open spec fn apply_map_diff<K, V>(m: Map<K, V>, d: MapDiff<K, V>) -> Map<K, V> {
    match d {
        MapDiff::Replace { entries } => entries_map(entries@),
        MapDiff::Insert { key, value } => m.insert(key, value),
        MapDiff::Update { key, value } => m.insert(key, value),
        MapDiff::Remove { key } => m.remove(key),
        MapDiff::Clear {} => Map::empty(),
    }
}

/// `out` is `d` with `f` applied to every value it carries.
pub open spec fn diff_mapped_by<K, A, B, F: Fn(A) -> B>(d: MapDiff<K, A>, f: F, out: MapDiff<K, B>) -> bool {
    match (d, out) {
        (MapDiff::Replace { entries: e1 }, MapDiff::Replace { entries: e2 }) => {
            &&& e1@.len() == e2@.len()
            &&& forall|i: int| 0 <= i < e1@.len() ==> {
                &&& (#[trigger] e2@[i]).0 == e1@[i].0
                &&& call_ensures(f, (e1@[i].1,), e2@[i].1)
            }
        },
        (MapDiff::Insert { key: k1, value: v1 }, MapDiff::Insert { key: k2, value: v2 }) =>
            k1 == k2 && call_ensures(f, (v1,), v2),
        (MapDiff::Update { key: k1, value: v1 }, MapDiff::Update { key: k2, value: v2 }) =>
            k1 == k2 && call_ensures(f, (v1,), v2),
        (MapDiff::Remove { key: k1 }, MapDiff::Remove { key: k2 }) => k1 == k2,
        (MapDiff::Clear {}, MapDiff::Clear {}) => true,
        _ => false,
    }
}

impl<K, A> MapDiff<K, A> {
    /// Applies `callback` to every value of the change, keeping its keys and kind.
    pub fn map<B, F>(self, callback: F) -> (out: MapDiff<K, B>)
        where F: Fn(A) -> B,
        requires
            forall|a: A| call_requires(callback, (a,)),
        ensures
            diff_mapped_by(self, callback, out),
    {
        match self {
            MapDiff::Replace { entries } => {
                let mut out: Vec<(K, B)> = Vec::new();
                let ghost orig = entries@;
                for e in it: entries.into_iter()
                    invariant
                        it.seq() == orig,
                        out@.len() == it.index(),
                        forall|a: A| call_requires(callback, (a,)),
                        forall|i: int| 0 <= i < out@.len() ==> {
                            &&& (#[trigger] out@[i]).0 == orig[i].0
                            &&& call_ensures(callback, (orig[i].1,), out@[i].1)
                        },
                {
                    let (k, v) = e;
                    let b = callback(v);
                    out.push((k, b));
                }
                MapDiff::Replace { entries: out }
            },
            MapDiff::Insert { key, value } => MapDiff::Insert { key, value: callback(value) },
            MapDiff::Update { key, value } => MapDiff::Update { key, value: callback(value) },
            MapDiff::Remove { key } => MapDiff::Remove { key },
            MapDiff::Clear {} => MapDiff::Clear {},
        }
    }
}


/// The map obtained from `m` by the changes `ds`, in order.
pub open spec fn replay_map_diffs<K, V>(m: Map<K, V>, ds: Seq<MapDiff<K, V>>) -> Map<K, V>
    decreases ds.len(),
{
    if ds.len() == 0 {
        m
    } else {
        apply_map_diff(replay_map_diffs(m, ds.drop_last()), ds.last())
    }
}

/// The keys of `entries`, in order.
pub open spec fn entry_keys<K, V>(entries: Seq<(K, V)>) -> Seq<K> {
    entries.map_values(|e: (K, V)| e.0)
}

/// `d` is a change that a map holding `m` can report: it inserts only keys
/// not in `m`, updates or removes only keys in `m`, and replaces with entries
/// listed in increasing key order.
pub open spec fn diff_fits<K, V>(m: Map<K, V>, d: MapDiff<K, V>) -> bool {
    match d {
        MapDiff::Replace { entries } => increasing_seq(entry_keys(entries@)),
        MapDiff::Insert { key, value: _ } => !m.contains_key(key),
        MapDiff::Update { key, value: _ } => m.contains_key(key),
        MapDiff::Remove { key } => m.contains_key(key),
        MapDiff::Clear {} => true,
    }
}

/// Starting from `m`, each change of `ds` fits the map that the changes
/// before it lead to.
pub open spec fn stream_fits<K, V>(m: Map<K, V>, ds: Seq<MapDiff<K, V>>) -> bool
    decreases ds.len(),
{
    ds.len() == 0 || (stream_fits(m, ds.drop_last()) && diff_fits(replay_map_diffs(m, ds.drop_last()), ds.last()))
}

/// Following a fitting stream with a change that fits where it leads keeps it fitting.
pub proof fn lemma_stream_fits_push<K, V>(m: Map<K, V>, ds: Seq<MapDiff<K, V>>, d: MapDiff<K, V>)
    requires
        stream_fits(m, ds),
        diff_fits(replay_map_diffs(m, ds), d),
    ensures
        stream_fits(m, ds.push(d)),
{
    assert(ds.push(d).drop_last() =~= ds);
}

/// The same change fits the same maps.
pub proof fn lemma_same_diff_fits<K, V>(m: Map<K, V>, a: MapDiff<K, V>, b: MapDiff<K, V>)
    requires
        same_diff(a, b),
        diff_fits(m, a),
    ensures
        diff_fits(m, b),
{
    match (a, b) {
        (MapDiff::Replace { entries: e1 }, MapDiff::Replace { entries: e2 }) => {
            assert(entry_keys(e1@) == entry_keys(e2@));
        },
        _ => {},
    }
}


/// Entries whose values are `g` of the values of `s1` make up the map of
/// `s1` with `g` applied to its values.
pub proof fn lemma_entries_map_map_values<K, A, B>(s1: Seq<(K, A)>, s2: Seq<(K, B)>, g: spec_fn(A) -> B)
    requires
        s1.len() == s2.len(),
        forall|i: int| 0 <= i < s1.len() ==> (#[trigger] s2[i]) == (s1[i].0, g(s1[i].1)),
    ensures
        entries_map(s2) == entries_map(s1).map_values(g),
    decreases s1.len(),
{
    if s1.len() > 0 {
        lemma_entries_map_map_values(s1.drop_last(), s2.drop_last(), g);
        assert(s2.last() == (s1.last().0, g(s1.last().1)));
        assert(entries_map(s2) =~= entries_map(s1).map_values(g));
    } else {
        assert(entries_map(s2) =~= entries_map(s1).map_values(g));
    }
}

/// Law: changing a map and then applying `g` to its values is the same as
/// applying `g` to its values and then the change that `MapDiff::map`
/// makes with a callback that computes `g`.
pub proof fn lemma_map_commutes_with_apply<K, A, B, F: Fn(A) -> B>(
    m: Map<K, A>,
    d: MapDiff<K, A>,
    f: F,
    g: spec_fn(A) -> B,
    out: MapDiff<K, B>,
)
    requires
        diff_mapped_by(d, f, out),
        forall|a: A, b: B| call_ensures(f, (a,), b) ==> b == g(a),
    ensures
        apply_map_diff(m.map_values(g), out) == apply_map_diff(m, d).map_values(g),
{
    match (d, out) {
        (MapDiff::Replace { entries: e1 }, MapDiff::Replace { entries: e2 }) => {
            assert forall|i: int| 0 <= i < e1@.len() implies (#[trigger] e2@[i]) == (e1@[i].0, g(e1@[i].1)) by {
                assert(call_ensures(f, (e1@[i].1,), e2@[i].1));
            }
            lemma_entries_map_map_values(e1@, e2@, g);
        },
        (MapDiff::Insert { key: k1, value: v1 }, MapDiff::Insert { key: k2, value: v2 }) => {
            assert(m.map_values(g).insert(k2, v2) =~= m.insert(k1, v1).map_values(g));
        },
        (MapDiff::Update { key: k1, value: v1 }, MapDiff::Update { key: k2, value: v2 }) => {
            assert(m.map_values(g).insert(k2, v2) =~= m.insert(k1, v1).map_values(g));
        },
        (MapDiff::Remove { key: k1 }, MapDiff::Remove { key: k2 }) => {
            assert(m.map_values(g).remove(k2) =~= m.remove(k1).map_values(g));
        },
        _ => {
            assert(Map::<K, B>::empty() =~= Map::<K, A>::empty().map_values(g));
        },
    }
}

/// Law: mapping a change by a callback that gives back its argument gives
/// the same change.
pub proof fn lemma_map_identity<K, A, F: Fn(A) -> A>(d: MapDiff<K, A>, f: F, out: MapDiff<K, A>)
    requires
        diff_mapped_by(d, f, out),
        forall|a: A, b: A| call_ensures(f, (a,), b) ==> b == a,
    ensures
        same_diff(d, out),
{
    match (d, out) {
        (MapDiff::Replace { entries: e1 }, MapDiff::Replace { entries: e2 }) => {
            assert forall|i: int| 0 <= i < e1@.len() implies e1@[i] == e2@[i] by {
                assert(call_ensures(f, (e1@[i].1,), e2@[i].1));
            }
            assert(e1@ =~= e2@);
        },
        _ => {},
    }
}

/// Law: mapping a change by `f` and then by `g` gives the same change as
/// mapping it once by a callback `h` that computes `g` after `f`.
pub proof fn lemma_map_composes<K, A, B, C, F: Fn(A) -> B, G: Fn(B) -> C, H: Fn(A) -> C>(
    d: MapDiff<K, A>,
    f: F,
    g: G,
    h: H,
    sf: spec_fn(A) -> B,
    sg: spec_fn(B) -> C,
    mid: MapDiff<K, B>,
    out: MapDiff<K, C>,
    direct: MapDiff<K, C>,
)
    requires
        forall|a: A, b: B| call_ensures(f, (a,), b) ==> b == sf(a),
        forall|b: B, c: C| call_ensures(g, (b,), c) ==> c == sg(b),
        forall|a: A, c: C| call_ensures(h, (a,), c) ==> c == sg(sf(a)),
        diff_mapped_by(d, f, mid),
        diff_mapped_by(mid, g, out),
        diff_mapped_by(d, h, direct),
    ensures
        same_diff(out, direct),
{
    match (d, mid, out, direct) {
        (MapDiff::Replace { entries: e0 }, MapDiff::Replace { entries: e1 }, MapDiff::Replace { entries: e2 }, MapDiff::Replace { entries: e3 }) => {
            assert forall|i: int| 0 <= i < e2@.len() implies e2@[i] == e3@[i] by {
                assert(call_ensures(f, (e0@[i].1,), e1@[i].1));
                assert(call_ensures(g, (e1@[i].1,), e2@[i].1));
                assert(call_ensures(h, (e0@[i].1,), e3@[i].1));
            }
            assert(e2@ =~= e3@);
        },
        _ => {},
    }
}

/// `b` could be what `a.clone()` gives back, field by field.
pub open spec fn diff_cloned<K: Clone, V: Clone>(a: MapDiff<K, V>, b: MapDiff<K, V>) -> bool {
    match (a, b) {
        (MapDiff::Replace { entries: e1 }, MapDiff::Replace { entries: e2 }) => {
            &&& e1@.len() == e2@.len()
            &&& forall|i: int| 0 <= i < e1@.len() ==> {
                &&& cloned((#[trigger] e1@[i]).0, e2@[i].0)
                &&& cloned(e1@[i].1, e2@[i].1)
            }
        },
        (MapDiff::Insert { key: k1, value: v1 }, MapDiff::Insert { key: k2, value: v2 }) =>
            cloned(k1, k2) && cloned(v1, v2),
        (MapDiff::Update { key: k1, value: v1 }, MapDiff::Update { key: k2, value: v2 }) =>
            cloned(k1, k2) && cloned(v1, v2),
        (MapDiff::Remove { key: k1 }, MapDiff::Remove { key: k2 }) => cloned(k1, k2),
        (MapDiff::Clear {}, MapDiff::Clear {}) => true,
        _ => false,
    }
}

/// Cloning a value of `T` gives back an equal value.
pub open spec fn clone_faithful<T: Clone>() -> bool {
    forall|a: T, b: T| #[trigger] cloned(a, b) ==> a == b
}

/// Replaying one more change is applying it to the replay so far.
pub proof fn lemma_replay_push<K, V>(m: Map<K, V>, ds: Seq<MapDiff<K, V>>, d: MapDiff<K, V>)
    ensures
        replay_map_diffs(m, ds.push(d)) == apply_map_diff(replay_map_diffs(m, ds), d),
{
    assert(ds.push(d).drop_last() =~= ds);
}

/// A key occurs in `entries_map(s)` exactly when some entry of `s` has it,
/// and its value there is the value of such an entry.
pub proof fn lemma_entries_map_lookup<K, V>(s: Seq<(K, V)>, k: K)
    ensures
        entries_map(s).contains_key(k) <==> exists|i: int| 0 <= i < s.len() && (#[trigger] s[i]).0 == k,
        entries_map(s).contains_key(k) ==> exists|i: int|
            0 <= i < s.len() && (#[trigger] s[i]).0 == k && s[i].1 == entries_map(s)[k],
    decreases s.len(),
{
    if s.len() > 0 {
        let t = s.drop_last();
        lemma_entries_map_lookup(t, k);
        if s.last().0 == k {
            assert(s[s.len() - 1].0 == k);
        } else {
            assert forall|i: int| 0 <= i < t.len() && (#[trigger] t[i]).0 == k implies
                0 <= i < s.len() && s[i].0 == k by {
                assert(t[i] == s[i]);
            }
            if exists|i: int| 0 <= i < s.len() && (#[trigger] s[i]).0 == k {
                let i = choose|i: int| 0 <= i < s.len() && (#[trigger] s[i]).0 == k;
                assert(i < s.len() - 1);
                assert(t[i] == s[i]);
            }
            if entries_map(t).contains_key(k) {
                let i = choose|i: int| 0 <= i < t.len() && (#[trigger] t[i]).0 == k && t[i].1 == entries_map(t)[k];
                assert(s[i] == t[i]);
            }
        }
    }
}

/// The entries of `m`, listed without repetition, make up `m` again.
pub proof fn lemma_entries_map_of_listing<K, V>(s: Seq<(K, V)>, m: Map<K, V>)
    requires
        forall|i: int| 0 <= i < s.len() ==> m.contains_key((#[trigger] s[i]).0) && m[s[i].0] == s[i].1,
        forall|k: K| #[trigger] m.contains_key(k) ==> exists|i: int| 0 <= i < s.len() && (#[trigger] s[i]).0 == k,
    ensures
        entries_map(s) == m,
{
    assert forall|k: K| #[trigger] entries_map(s).contains_key(k) <==> m.contains_key(k) by {
        lemma_entries_map_lookup(s, k);
    }
    assert forall|k: K| #[trigger] entries_map(s).contains_key(k) implies entries_map(s)[k] == m[k] by {
        lemma_entries_map_lookup(s, k);
    }
    assert(entries_map(s) =~= m);
}


/// `a` and `b` are the same change: same kind, same keys and values, same
/// listed entries.
pub open spec fn same_diff<K, V>(a: MapDiff<K, V>, b: MapDiff<K, V>) -> bool {
    match (a, b) {
        (MapDiff::Replace { entries: e1 }, MapDiff::Replace { entries: e2 }) => e1@ == e2@,
        (MapDiff::Insert { key: k1, value: v1 }, MapDiff::Insert { key: k2, value: v2 }) =>
            k1 == k2 && v1 == v2,
        (MapDiff::Update { key: k1, value: v1 }, MapDiff::Update { key: k2, value: v2 }) =>
            k1 == k2 && v1 == v2,
        (MapDiff::Remove { key: k1 }, MapDiff::Remove { key: k2 }) => k1 == k2,
        (MapDiff::Clear {}, MapDiff::Clear {}) => true,
        _ => false,
    }
}

/// The same change has the same effect on every map.
pub proof fn lemma_same_diff_same_effect<K, V>(m: Map<K, V>, a: MapDiff<K, V>, b: MapDiff<K, V>)
    requires
        same_diff(a, b),
    ensures
        apply_map_diff(m, a) == apply_map_diff(m, b),
{
}

/// With clones that give back equal values, a clone of a change is the same change.
pub proof fn lemma_cloned_is_same<K: Clone, V: Clone>(a: MapDiff<K, V>, b: MapDiff<K, V>)
    requires
        clone_faithful::<K>(),
        clone_faithful::<V>(),
        diff_cloned(a, b),
    ensures
        same_diff(a, b),
{
    match (a, b) {
        (MapDiff::Replace { entries: e1 }, MapDiff::Replace { entries: e2 }) => {
            assert forall|i: int| 0 <= i < e1@.len() implies e1@[i] == e2@[i] by {
                assert(cloned(e1@[i].0, e2@[i].0));
                assert(cloned(e1@[i].1, e2@[i].1));
            }
            assert(e1@ =~= e2@);
        },
        (MapDiff::Insert { key: k1, value: v1 }, MapDiff::Insert { key: k2, value: v2 }) => {
            assert(cloned(k1, k2));
            assert(cloned(v1, v2));
        },
        (MapDiff::Update { key: k1, value: v1 }, MapDiff::Update { key: k2, value: v2 }) => {
            assert(cloned(k1, k2));
            assert(cloned(v1, v2));
        },
        (MapDiff::Remove { key: k1 }, MapDiff::Remove { key: k2 }) => {
            assert(cloned(k1, k2));
        },
        _ => {},
    }
}

/// Returns a copy of `d` made with the `Clone` impls of its keys and values.
pub fn clone_diff<K: Clone, V: Clone>(d: &MapDiff<K, V>) -> (out: MapDiff<K, V>)
    ensures
        diff_cloned(*d, out),
{
    match d {
        MapDiff::Replace { entries } => {
            let mut out: Vec<(K, V)> = Vec::new();
            let mut i: usize = 0;
            while i < entries.len()
                invariant
                    i <= entries@.len(),
                    out@.len() == i,
                    forall|j: int| 0 <= j < i ==> {
                        &&& cloned((#[trigger] entries@[j]).0, out@[j].0)
                        &&& cloned(entries@[j].1, out@[j].1)
                    },
                decreases entries@.len() - i,
            {
                let k = entries[i].0.clone();
                let v = entries[i].1.clone();
                out.push((k, v));
                i = i + 1;
            }
            MapDiff::Replace { entries: out }
        },
        MapDiff::Insert { key, value } => MapDiff::Insert { key: key.clone(), value: value.clone() },
        MapDiff::Update { key, value } => MapDiff::Update { key: key.clone(), value: value.clone() },
        MapDiff::Remove { key } => MapDiff::Remove { key: key.clone() },
        MapDiff::Clear {} => MapDiff::Clear {},
    }
}

} // verus!
