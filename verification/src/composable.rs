use vstd::prelude::*;
use vec1::Vec1;

use crate::btree_map::MutableBTreeMap;
use crate::mutable::{Mutable, MutableLockRef};
use crate::registry::{keys_to_vec1, vec1_keys, SpawnedFutureKey};
use crate::sync::LockError;

verus! {

/// A value under construction by spawned futures, each of which was handed
/// a clone of it; the keys of their cancellation tokens are kept.
#[verifier::reject_recursive_types(A)]
pub struct ComposableBuilder<A: Clone> {
    inner: Mutable<A>,
    fut_keys: Vec<SpawnedFutureKey>,
}

impl<A: Clone> ComposableBuilder<A> {
    #[verifier::type_invariant]
    closed spec fn wf(&self) -> bool {
        self.fut_keys@.len() > 0
    }

    /// The keys of the futures spawned so far, in order.
    pub closed spec fn fut_keys(&self) -> Seq<SpawnedFutureKey> {
        self.fut_keys@
    }

    /// The value under construction.
    pub closed spec fn value(&self) -> Mutable<A> {
        self.inner
    }

    /// A builder of `inner`, whose first future was spawned under `fut_key`.
    pub fn new_with(inner: Mutable<A>, fut_key: SpawnedFutureKey) -> (b: Self)
        ensures
            b.fut_keys() == seq![fut_key],
            b.value() == inner,
    {
        let mut fut_keys: Vec<SpawnedFutureKey> = Vec::new();
        fut_keys.push(fut_key);
        ComposableBuilder { inner, fut_keys }
    }

    /// The value under construction, to hand a clone of it to the next future.
    pub fn inner(&self) -> (m: &Mutable<A>)
        ensures
            *m == self.value(),
    {
        &self.inner
    }

    /// Records one more future, spawned under `fut_key`.
    pub fn and_with(self, fut_key: SpawnedFutureKey) -> (b: Self)
        ensures
            b.fut_keys() == self.fut_keys().push(fut_key),
            b.value() == self.value(),
    {
        let ComposableBuilder { inner, mut fut_keys } = self;
        fut_keys.push(fut_key);
        ComposableBuilder { inner, fut_keys }
    }

    /// The value and the keys of its futures, of which there is at least one.
    pub fn into_parts(self) -> (parts: (Mutable<A>, Vec1<SpawnedFutureKey>))
        ensures
            parts.0 == self.value(),
            vec1_keys(parts.1) == self.fut_keys(),
    {
        proof { use_type_invariant(&self); }
        let ComposableBuilder { inner, fut_keys } = self;
        match keys_to_vec1(fut_keys) {
            Ok(keys) => (inner, keys),
            Err(_) => unreached(),
        }
    }
}

/// A value built by spawned futures, cancelled with them through `fut_key`.
#[verifier::reject_recursive_types(A)]
pub struct Composable<A: Clone> {
    inner: Mutable<A>,
    fut_key: SpawnedFutureKey,
}

impl<A: Clone> Composable<A> {
    /// The value.
    pub closed spec fn value(&self) -> Mutable<A> {
        self.inner
    }

    /// The key of the token that cancels the value's futures.
    pub closed spec fn key(&self) -> SpawnedFutureKey {
        self.fut_key
    }

    /// The composed value `inner`, whose futures `fut_key` cancels.
    pub fn new(inner: Mutable<A>, fut_key: SpawnedFutureKey) -> (c: Self)
        ensures
            c.value() == inner,
            c.key() == fut_key,
    {
        Composable { inner, fut_key }
    }

    /// Shared access to the value, if it can be had without waiting (see
    /// `Mutable::lock_ref`).
    pub fn lock_ref(&self) -> Result<MutableLockRef<'_, A>, LockError> {
        self.inner.lock_ref()
    }

    /// The value, to subscribe to it.
    pub fn inner(&self) -> (m: &Mutable<A>)
        ensures
            *m == self.value(),
    {
        &self.inner
    }

    /// The key of the token that cancels the value's futures.
    pub fn fut_key(&self) -> (k: SpawnedFutureKey)
        ensures
            k == self.key(),
    {
        self.fut_key
    }
}

/// An ordered map under construction by spawned futures, each of which was
/// handed another owner of it; the keys of their cancellation tokens are kept.
#[verifier::reject_recursive_types(K)]
#[verifier::reject_recursive_types(V)]
pub struct ComposableMapBuilder<K: Ord + Clone, V: Clone> {
    inner: MutableBTreeMap<K, V>,
    fut_keys: Vec<SpawnedFutureKey>,
}

impl<K: Ord + Clone, V: Clone> ComposableMapBuilder<K, V> {
    #[verifier::type_invariant]
    closed spec fn wf(&self) -> bool {
        self.fut_keys@.len() > 0
    }

    /// The keys of the futures spawned so far, in order.
    pub closed spec fn fut_keys(&self) -> Seq<SpawnedFutureKey> {
        self.fut_keys@
    }

    /// The map under construction.
    pub closed spec fn value(&self) -> MutableBTreeMap<K, V> {
        self.inner
    }

    /// A builder of `inner`, whose first future was spawned under `fut_key`.
    pub fn new_with(inner: MutableBTreeMap<K, V>, fut_key: SpawnedFutureKey) -> (b: Self)
        ensures
            b.fut_keys() == seq![fut_key],
            b.value() == inner,
    {
        let mut fut_keys: Vec<SpawnedFutureKey> = Vec::new();
        fut_keys.push(fut_key);
        ComposableMapBuilder { inner, fut_keys }
    }

    /// The map under construction, to hand another owner of it to the next future.
    pub fn inner(&self) -> (m: &MutableBTreeMap<K, V>)
        ensures
            *m == self.value(),
    {
        &self.inner
    }

    /// Records one more future, spawned under `fut_key`.
    pub fn and_with(self, fut_key: SpawnedFutureKey) -> (b: Self)
        ensures
            b.fut_keys() == self.fut_keys().push(fut_key),
            b.value() == self.value(),
    {
        let ComposableMapBuilder { inner, mut fut_keys } = self;
        fut_keys.push(fut_key);
        ComposableMapBuilder { inner, fut_keys }
    }

    /// The map and the keys of its futures, of which there is at least one.
    pub fn into_parts(self) -> (parts: (MutableBTreeMap<K, V>, Vec1<SpawnedFutureKey>))
        ensures
            parts.0 == self.value(),
            vec1_keys(parts.1) == self.fut_keys(),
    {
        proof { use_type_invariant(&self); }
        let ComposableMapBuilder { inner, fut_keys } = self;
        match keys_to_vec1(fut_keys) {
            Ok(keys) => (inner, keys),
            Err(_) => unreached(),
        }
    }
}

/// An ordered map built by spawned futures, cancelled with them through `fut_key`.
#[verifier::reject_recursive_types(K)]
#[verifier::reject_recursive_types(V)]
pub struct ComposableMap<K: Ord + Clone, V: Clone> {
    inner: MutableBTreeMap<K, V>,
    fut_key: SpawnedFutureKey,
}

impl<K: Ord + Clone, V: Clone> ComposableMap<K, V> {
    /// The map.
    pub closed spec fn value(&self) -> MutableBTreeMap<K, V> {
        self.inner
    }

    /// The key of the token that cancels the map's futures.
    pub closed spec fn key(&self) -> SpawnedFutureKey {
        self.fut_key
    }

    /// The composed map `inner`, whose futures `fut_key` cancels.
    pub fn new(inner: MutableBTreeMap<K, V>, fut_key: SpawnedFutureKey) -> (c: Self)
        ensures
            c.value() == inner,
            c.key() == fut_key,
    {
        ComposableMap { inner, fut_key }
    }

    /// The map, to subscribe to it.
    pub fn inner(&self) -> (m: &MutableBTreeMap<K, V>)
        ensures
            *m == self.value(),
    {
        &self.inner
    }

    /// The key of the token that cancels the map's futures.
    pub fn fut_key(&self) -> (k: SpawnedFutureKey)
        ensures
            k == self.key(),
    {
        self.fut_key
    }
}

} // verus!
