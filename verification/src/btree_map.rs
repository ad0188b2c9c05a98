use vstd::prelude::*;
use std::collections::BTreeMap;
use std::ops::Deref;
use std::sync::{Arc, RwLock, RwLockReadGuard, RwLockWriteGuard};
use futures_channel::mpsc::UnboundedReceiver;

use crate::btree_state::{lawful_keys, lists_clones_of, notified_of, notified_of_entries, observed_apply, MutableBTreeState};
use vstd::std_specs::btree::increasing_seq;

use crate::diff::{clone_faithful, entries_map, entry_keys, MapDiff};
use crate::sync::{new_rwlock, read_guarded, try_read_rwlock, try_write_rwlock, write_guarded_mut, LockError};

verus! {

/// Shared access to the entries of a `MutableBTreeMap`, held until dropped.
#[verifier::reject_recursive_types(K)]
#[verifier::reject_recursive_types(V)]
pub struct MutableBTreeMapLockRef<'a, K: Ord + Clone, V: Clone> {
    lock: RwLockReadGuard<'a, MutableBTreeState<K, V>>,
}

/// Exclusive access to a `MutableBTreeMap`, held until dropped. The state is
/// held here while the lock is, and put back into the lock when this is
/// dropped. Every change made through it is handed on to the map's subscribers.
#[verifier::reject_recursive_types(K)]
#[verifier::reject_recursive_types(V)]
pub struct MutableBTreeMapLockMut<'a, K: Ord + Clone, V: Clone> {
    lock: RwLockWriteGuard<'a, MutableBTreeState<K, V>>,
    state: MutableBTreeState<K, V>,
}

impl<'a, K: Ord + Clone, V: Clone> Drop for MutableBTreeMapLockMut<'a, K, V> {
    /// Puts the state back into the lock, before the lock is released.
    fn drop(&mut self)
        opens_invariants none
        no_unwind
    {
        let guarded = write_guarded_mut(&mut self.lock);
        std::mem::swap(guarded, &mut self.state);
    }
}

impl<'a, K: Ord + Clone, V: Clone> View for MutableBTreeMapLockMut<'a, K, V> {
    type V = Map<K, V>;

    closed spec fn view(&self) -> Map<K, V> {
        self.state@
    }
}

impl<'a, K: Ord + Clone, V: Clone> MutableBTreeMapLockRef<'a, K, V> {
    /// Shared access through `lock`, a guard of the lock of a `MutableBTreeMap`.
    pub fn new(lock: RwLockReadGuard<'a, MutableBTreeState<K, V>>) -> Self {
        MutableBTreeMapLockRef { lock }
    }
}

impl<'a, K: Ord + Clone, V: Clone> Deref for MutableBTreeMapLockRef<'a, K, V> {
    type Target = BTreeMap<K, V>;

    fn deref(&self) -> (m: &BTreeMap<K, V>) {
        read_guarded(&self.lock).values()
    }
}

impl<'a, K: Ord + Clone, V: Clone> Deref for MutableBTreeMapLockMut<'a, K, V> {
    type Target = BTreeMap<K, V>;

    fn deref(&self) -> (m: &BTreeMap<K, V>)
        ensures
            m@ == self@,
    {
        self.state.values()
    }
}

impl<'a, K: Ord + Clone, V: Clone> MutableBTreeMapLockMut<'a, K, V> {
    /// The messages handed so far to each subscriber still listening (see
    /// `MutableBTreeState::handed`).
    pub closed spec fn handed(&self) -> Seq<Seq<MapDiff<K, V>>> {
        self.state.handed()
    }

    /// Exclusive access through `lock`, a guard of the lock of a
    /// `MutableBTreeMap`: the state is taken out of the lock, an empty one
    /// standing in for it until this is dropped.
    pub fn new(lock: RwLockWriteGuard<'a, MutableBTreeState<K, V>>) -> Self {
        let mut lock = lock;
        let guarded = write_guarded_mut(&mut lock);
        proof {
            use_type_invariant(&*guarded);
            guarded.lemma_lawful_keys();
        }
        let mut state = MutableBTreeState::new(BTreeMap::new());
        std::mem::swap(guarded, &mut state);
        MutableBTreeMapLockMut { lock, state }
    }

    /// Adds a subscriber and gives back the receiving half of its channel
    /// (see `MutableBTreeState::signal_map`).
    pub fn signal_map(&mut self) -> (receiver: UnboundedReceiver<MapDiff<K, V>>)
        ensures
            final(self)@ == old(self)@,
            final(self).handed().len() == old(self).handed().len() + 1,
            final(self).handed().drop_last() == old(self).handed(),
            old(self)@.is_empty() ==> final(self).handed().last() == Seq::<MapDiff<K, V>>::empty(),
            !old(self)@.is_empty() ==> {
                &&& final(self).handed().last().len() == 1
                &&& final(self).handed().last()[0] is Replace
                &&& lists_clones_of(final(self).handed().last()[0]->entries@, old(self)@)
                &&& clone_faithful::<K>() && clone_faithful::<V>() ==> {
                    &&& entries_map(final(self).handed().last()[0]->entries@) == old(self)@
                    &&& increasing_seq(entry_keys(final(self).handed().last()[0]->entries@))
                }
            },
    {
        self.state.signal_map()
    }

    /// Removes every entry (see `MutableBTreeState::clear`).
    pub fn clear(&mut self)
        ensures
            final(self)@ == Map::<K, V>::empty(),
            old(self)@.is_empty() ==> final(self).handed() == old(self).handed(),
            !old(self)@.is_empty() ==> notified_of(old(self).handed(), final(self).handed(), MapDiff::Clear {}),
    {
        self.state.clear()
    }

    /// Removes the entry of `key` and gives back its value (see `MutableBTreeState::remove`).
    pub fn remove(&mut self, key: &K) -> (removed: Option<V>)
        ensures
            final(self)@ == old(self)@.remove(*key),
            removed == (if old(self)@.contains_key(*key) { Some(old(self)@[*key]) } else { None }),
            !old(self)@.contains_key(*key) ==> final(self).handed() == old(self).handed(),
            old(self)@.contains_key(*key) ==> notified_of(old(self).handed(), final(self).handed(), MapDiff::Remove { key: *key }),
    {
        self.state.remove(key)
    }

    /// Puts `values` in place of every entry (see `MutableBTreeState::replace`).
    pub fn replace(&mut self, values: BTreeMap<K, V>)
        ensures
            final(self)@ == values@,
            notified_of_entries(old(self).handed(), final(self).handed(), values@),
    {
        self.state.replace(values)
    }

    /// Whether `key` has an entry.
    pub fn contains_key(&self, key: &K) -> (b: bool)
        ensures
            b == self@.contains_key(*key),
    {
        proof {
            use_type_invariant(&self.state);
            self.state.lemma_lawful_keys();
        }
        self.state.values().contains_key(key)
    }

    /// Applies a change received from another map-valued signal (see
    /// `MutableBTreeState::apply_observed`); a removal must be of a key that
    /// has an entry.
    pub fn apply_observed(&mut self, diff: MapDiff<K, V>)
        requires
            diff matches MapDiff::Remove { key } ==> old(self)@.contains_key(key),
        ensures
            final(self)@ == observed_apply(old(self)@, diff),
    {
        self.state.apply_observed(diff)
    }

    /// Sets the value of `key` and gives back the value it replaced (see `MutableBTreeState::insert`).
    pub fn insert(&mut self, key: K, value: V) -> (replaced: Option<V>)
        ensures
            final(self)@ == old(self)@.insert(key, value),
            replaced == (if old(self)@.contains_key(key) { Some(old(self)@[key]) } else { None }),
            old(self)@.contains_key(key) ==> notified_of(old(self).handed(), final(self).handed(), MapDiff::Update { key, value }),
            !old(self)@.contains_key(key) ==> notified_of(old(self).handed(), final(self).handed(), MapDiff::Insert { key, value }),
    {
        self.state.insert(key, value)
    }
}

/// An ordered map shared between owners, whose changes its subscribers
/// receive as `MapDiff`s.
#[verifier::reject_recursive_types(K)]
#[verifier::reject_recursive_types(V)]
pub struct MutableBTreeMap<K: Ord + Clone, V: Clone> {
    state: Arc<RwLock<MutableBTreeState<K, V>>>,
    made: Ghost<MutableBTreeState<K, V>>,
}

impl<K: Ord + Clone, V: Clone> MutableBTreeMap<K, V> {
    /// The lock around the state, for a caller that waits for it.
    pub fn lock(&self) -> (l: &RwLock<MutableBTreeState<K, V>>)
        ensures
            *l == self.rwlock(),
    {
        &*self.state
    }

    /// The lock around the state.
    pub closed spec fn rwlock(&self) -> RwLock<MutableBTreeState<K, V>> {
        *self.state
    }

    /// Shared access to the entries, if it can be had without waiting; the
    /// lock refuses it while it is held for writing, here or elsewhere, and
    /// once a panic has poisoned it.
    pub fn lock_ref(&self) -> Result<MutableBTreeMapLockRef<'_, K, V>, LockError> {
        match try_read_rwlock(&*self.state) {
            Ok(lock) => Ok(MutableBTreeMapLockRef::new(lock)),
            Err(e) => Err(e),
        }
    }

    /// Exclusive access to the entries, if it can be had without waiting;
    /// the lock refuses it while it is held, here or elsewhere, and once a
    /// panic has poisoned it.
    pub fn lock_mut(&self) -> Result<MutableBTreeMapLockMut<'_, K, V>, LockError> {
        match try_write_rwlock(&*self.state) {
            Ok(lock) => Ok(MutableBTreeMapLockMut::new(lock)),
            Err(e) => Err(e),
        }
    }

    /// The entries of the state that the map's lock was made around.
    pub closed spec fn made_with(&self) -> Map<K, V> {
        self.made@@
    }

    /// The subscribers of the state that the map's lock was made around.
    pub closed spec fn made_handed(&self) -> Seq<Seq<MapDiff<K, V>>> {
        self.made@.handed()
    }

    /// A map without entries or subscribers.
    pub fn new() -> (m: Self)
        requires
            lawful_keys::<K>(),
        ensures
            m.made_with() == Map::<K, V>::empty(),
            m.made_handed() == Seq::<Seq<MapDiff<K, V>>>::empty(),
    {
        Self::new_with_values(BTreeMap::new())
    }

    /// A map holding `values`, without subscribers: its lock is made around
    /// a state holding exactly `values` and no subscriber.
    pub fn new_with_values(values: BTreeMap<K, V>) -> (m: Self)
        requires
            lawful_keys::<K>(),
        ensures
            m.made_with() == values@,
            m.made_handed() == Seq::<Seq<MapDiff<K, V>>>::empty(),
    {
        let state = MutableBTreeState::new(values);
        let ghost made = state;
        MutableBTreeMap { state: Arc::new(new_rwlock(state)), made: Ghost(made) }
    }

    /// `self` and `other` are owners of the same map.
    pub closed spec fn shares_with(&self, other: &Self) -> bool {
        self.state == other.state
    }
}

impl<K: Ord + Clone, V: Clone> Clone for MutableBTreeMap<K, V> {
    /// Another owner of the same map.
    fn clone(&self) -> (out: Self)
        ensures
            out.shares_with(self),
            out.made_with() == self.made_with(),
            out.made_handed() == self.made_handed(),
    {
        MutableBTreeMap { state: Arc::clone(&self.state), made: self.made }
    }
}

} // verus!
