use vstd::prelude::*;
use slotmap::{DefaultKey, SlotMap};
use tokio_util::sync::CancellationToken;
use vec1::{Size0Error, Vec1};

verus! {

/// The key under which a spawned future's cancellation token is kept.
pub type SpawnedFutureKey = DefaultKey;

#[verifier::external_type_specification]
#[verifier::external_body]
pub struct ExDefaultKey(DefaultKey);

#[verifier::external_type_specification]
#[verifier::external_body]
pub struct ExCancellationToken(CancellationToken);

#[verifier::external_type_specification]
#[verifier::external_body]
#[verifier::reject_recursive_types(I)]
pub struct ExVec1<I>(Vec1<I>);

#[verifier::external_type_specification]
#[verifier::external_body]
pub struct ExSize0Error(Size0Error);

/// The cancellation tokens of the spawned futures, kept in a
/// `slotmap::SlotMap` under the keys that it hands out.
#[verifier::external_body]
pub struct FutureRegistry {
    futs: SlotMap<DefaultKey, CancellationToken>,
}

/// The keys that `r` holds a token for.
pub uninterp spec fn registered(r: FutureRegistry) -> Set<DefaultKey>;

/// The number of slots `r` has filled; a registry never frees one, so it
/// is also the number of keys held.
pub uninterp spec fn slots_used(r: FutureRegistry) -> nat;

/// The keys of a non-empty vector of keys, in order.
pub uninterp spec fn vec1_keys(v: Vec1<DefaultKey>) -> Seq<DefaultKey>;

/// For each key held, the key of the token that its token was made a child
/// of (so that it is cancelled whenever that one is), or `None` for a token
/// made on its own. Made when the token is made, this never changes.
pub uninterp spec fn provider_of(r: FutureRegistry) -> Map<DefaultKey, Option<DefaultKey>>;

/// The most tokens a registry takes: `SlotMap::insert` panics once its
/// slots reach `u32::MAX`, and a registry never frees a slot.
pub open spec fn registry_limit() -> nat {
    4294967294
}

/// Calls `SlotMap::new`, which makes an empty slot map.
#[verifier::external_body]
fn slotmap_new() -> (r: FutureRegistry)
    ensures
        registered(r) == Set::<DefaultKey>::empty(),
        slots_used(r) == 0,
        provider_of(r).dom() == Set::<DefaultKey>::empty(),
{
    FutureRegistry { futs: SlotMap::new() }
}

/// Calls `SlotMap::len`: the number of keys held, which is the number of
/// slots filled, since a registry never frees a slot.
#[verifier::external_body]
fn slotmap_len(r: &FutureRegistry) -> (n: usize)
    ensures
        n == slots_used(*r),
{
    r.futs.len()
}

/// Calls `SlotMap::get`, which finds the token of `key` if `key` is held.
#[verifier::external_body]
fn slotmap_get(r: &FutureRegistry, key: DefaultKey) -> (t: Option<&CancellationToken>)
    ensures
        t is Some <==> registered(*r).contains(key),
{
    r.futs.get(key)
}

/// Calls `SlotMap::insert` with a token that `CancellationToken::new` makes,
/// one that is cancelled only directly. `insert` stores it under a key it
/// did not hold before and gives the key back; it panics once its slots
/// reach `u32::MAX`, and a registry never frees a slot, so its slots are
/// its keys.
#[verifier::external_body]
fn slotmap_insert_new(r: &mut FutureRegistry) -> (key: DefaultKey)
    requires
        slots_used(*old(r)) < registry_limit(),
    ensures
        !registered(*old(r)).contains(key),
        !provider_of(*old(r)).contains_key(key),
        registered(*final(r)) == registered(*old(r)).insert(key),
        slots_used(*final(r)) == slots_used(*old(r)) + 1,
        provider_of(*final(r)) == provider_of(*old(r)).insert(key, None),
{
    r.futs.insert(CancellationToken::new())
}

/// Calls `SlotMap::insert` with the token that `CancellationToken::child_token`
/// makes of the token held under `parent` (found with `SlotMap`'s index,
/// which panics for a key not held): a token cancelled whenever that one
/// is. `insert` stores it under a key it did not hold before and gives the
/// key back; it panics once its slots reach `u32::MAX`.
#[verifier::external_body]
fn slotmap_insert_child(r: &mut FutureRegistry, parent: DefaultKey) -> (key: DefaultKey)
    requires
        registered(*old(r)).contains(parent),
        slots_used(*old(r)) < registry_limit(),
    ensures
        !registered(*old(r)).contains(key),
        !provider_of(*old(r)).contains_key(key),
        registered(*final(r)) == registered(*old(r)).insert(key),
        slots_used(*final(r)) == slots_used(*old(r)) + 1,
        provider_of(*final(r)) == provider_of(*old(r)).insert(key, Some(parent)),
{
    let child = r.futs[parent].child_token();
    r.futs.insert(child)
}

/// Calls `CancellationToken::clone`, which makes a handle to the same token.
#[verifier::external_body]
fn token_clone(token: &CancellationToken) -> CancellationToken {
    token.clone()
}

/// Calls `Vec1::try_from_vec`, which fails exactly on an empty vector and
/// otherwise keeps its items.
#[verifier::external_body]
pub(crate) fn keys_to_vec1(keys: Vec<DefaultKey>) -> (r: Result<Vec1<DefaultKey>, Size0Error>)
    ensures
        r is Ok <==> keys@.len() > 0,
        r matches Ok(v) ==> vec1_keys(v) == keys@,
{
    Vec1::try_from_vec(keys)
}

/// Calls `Vec1::as_vec`: the items as a vector.
#[verifier::external_body]
fn vec1_items(v: &Vec1<DefaultKey>) -> (items: &Vec<DefaultKey>)
    ensures
        items@ == vec1_keys(*v),
{
    v.as_vec()
}

impl FutureRegistry {
    /// A registry without keys.
    pub fn new() -> (r: Self)
        ensures
            registered(r) == Set::<DefaultKey>::empty(),
            slots_used(r) == 0,
    {
        slotmap_new()
    }

    /// Whether `key` has a token here.
    pub fn is_registered(&self, key: DefaultKey) -> (b: bool)
        ensures
            b == registered(*self).contains(key),
    {
        slotmap_get(self, key).is_some()
    }

    /// The number of keys held.
    pub fn len(&self) -> (n: usize)
        ensures
            n == slots_used(*self),
    {
        slotmap_len(self)
    }

    /// Whether every key of `keys` is held here.
    pub fn holds_all(&self, keys: &Vec1<DefaultKey>) -> (b: bool)
        ensures
            b <==> forall|k: DefaultKey| vec1_keys(*keys).contains(k) ==> registered(*self).contains(k),
    {
        let items = vec1_items(keys);
        let mut i: usize = 0;
        while i < items.len()
            invariant
                items@ == vec1_keys(*keys),
                i <= items@.len(),
                forall|j: int| 0 <= j < i ==> registered(*self).contains(#[trigger] items@[j]),
            decreases items@.len() - i,
        {
            if !self.is_registered(items[i]) {
                assert(vec1_keys(*keys).contains(items@[i as int]));
                return false;
            }
            i = i + 1;
        }
        proof {
            assert forall|k: DefaultKey| vec1_keys(*keys).contains(k) implies registered(*self).contains(k) by {
                let j = choose|j: int| 0 <= j < items@.len() && items@[j] == k;
                assert(registered(*self).contains(items@[j]));
            }
        }
        true
    }

    /// The handle of the token held under `key`, a key held here.
    fn handle(&self, key: DefaultKey) -> CancellationToken
        requires
            registered(*self).contains(key),
    {
        match slotmap_get(self, key) {
            Some(t) => token_clone(t),
            None => unreached(),
        }
    }

    /// Registers the token of a future to spawn: a child of the token of
    /// `provider_key` if there is one, so that it is cancelled with it, a new
    /// token otherwise. Gives back the new key and a handle to its token, or
    /// nothing when the registry is full.
    pub fn register_future(&mut self, provider_key: Option<DefaultKey>) -> (out: Option<(DefaultKey, CancellationToken)>)
        requires
            provider_key matches Some(p) ==> registered(*old(self)).contains(p),
        ensures
            out is None <==> slots_used(*old(self)) >= registry_limit(),
            out is None ==> *final(self) == *old(self),
            out matches Some((key, _)) ==> {
                &&& !registered(*old(self)).contains(key)
                &&& registered(*final(self)) == registered(*old(self)).insert(key)
                &&& slots_used(*final(self)) == slots_used(*old(self)) + 1
                &&& provider_of(*final(self)) == provider_of(*old(self)).insert(key, provider_key)
            },
    {
        let n = slotmap_len(self);
        if n >= 4294967294 {
            return None;
        }
        let key = match provider_key {
            Some(p) => slotmap_insert_child(self, p),
            None => slotmap_insert_new(self),
        };
        let handle = self.handle(key);
        Some((key, handle))
    }

    /// Registers what a token that depends on the tokens of `keys` needs: a
    /// new token, meant to be cancelled as soon as any token of `keys` is,
    /// and a child of each token of `keys`, to wait on. Gives back the new
    /// key and a handle to its token, and the keys of the children, in the
    /// order of `keys`, with a handle to each; or nothing when the registry
    /// has no room for them all.
    pub fn derive_dependent(&mut self, keys: &Vec1<DefaultKey>) -> (out: Option<(DefaultKey, CancellationToken, Vec<DefaultKey>, Vec<CancellationToken>)>)
        requires
            forall|k: DefaultKey| vec1_keys(*keys).contains(k) ==> registered(*old(self)).contains(k),
        ensures
            out is None <==> slots_used(*old(self)) + vec1_keys(*keys).len() + 1 > registry_limit(),
            out is None ==> *final(self) == *old(self),
            out matches Some((key, _, children, handles)) ==> {
                &&& children@.len() == vec1_keys(*keys).len()
                &&& handles@.len() == children@.len()
                &&& !registered(*old(self)).contains(key)
                &&& !children@.contains(key)
                &&& children@.no_duplicates()
                &&& forall|i: int| 0 <= i < children@.len() ==> !registered(*old(self)).contains(#[trigger] children@[i])
                &&& registered(*final(self)) == registered(*old(self)).union(children@.to_set()).insert(key)
                &&& slots_used(*final(self)) == slots_used(*old(self)) + children@.len() + 1
                &&& provider_of(*final(self)).contains_key(key)
                &&& provider_of(*final(self))[key] == None::<DefaultKey>
                &&& forall|i: int| 0 <= i < children@.len() ==> {
                    &&& provider_of(*final(self)).contains_key(#[trigger] children@[i])
                    &&& provider_of(*final(self))[children@[i]] == Some(vec1_keys(*keys)[i])
                }
                &&& forall|k: DefaultKey| #[trigger] provider_of(*old(self)).contains_key(k) ==>
                    provider_of(*final(self)).contains_key(k) && provider_of(*final(self))[k] == provider_of(*old(self))[k]
            },
    {
        let n = slotmap_len(self);
        let items = vec1_items(keys);
        if n >= 4294967294 || items.len() >= 4294967294 - n {
            return None;
        }
        let ghost old_r = *self;
        let mut children: Vec<DefaultKey> = Vec::new();
        let mut handles: Vec<CancellationToken> = Vec::new();
        let mut i: usize = 0;
        while i < items.len()
            invariant
                items@ == vec1_keys(*keys),
                forall|k: DefaultKey| vec1_keys(*keys).contains(k) ==> registered(old_r).contains(k),
                i <= items@.len(),
                n == slots_used(old_r),
                n + items@.len() < 4294967294,
                children@.len() == i,
                handles@.len() == i,
                children@.no_duplicates(),
                forall|j: int| 0 <= j < i ==> !registered(old_r).contains(#[trigger] children@[j]),
                registered(*self) == registered(old_r).union(children@.to_set()),
                slots_used(*self) == slots_used(old_r) + i,
                forall|j: int| 0 <= j < i ==> {
                    &&& provider_of(*self).contains_key(#[trigger] children@[j])
                    &&& provider_of(*self)[children@[j]] == Some(items@[j])
                },
                forall|k: DefaultKey| #[trigger] provider_of(old_r).contains_key(k) ==>
                    provider_of(*self).contains_key(k) && provider_of(*self)[k] == provider_of(old_r)[k],
            decreases items@.len() - i,
        {
            assert(vec1_keys(*keys).contains(items@[i as int]));
            let child = slotmap_insert_child(self, items[i]);
            let ghost prev = children@;
            children.push(child);
            proof {
                assert(!prev.contains(child));
                assert(children@ =~= prev.push(child));
                assert forall|x: DefaultKey| children@.contains(x) <==> (prev.contains(x) || x == child) by {
                    if prev.contains(x) {
                        let j = choose|j: int| 0 <= j < prev.len() && prev[j] == x;
                        assert(children@[j] == x);
                    }
                    if children@.contains(x) && x != child {
                        let j = choose|j: int| 0 <= j < children@.len() && children@[j] == x;
                        assert(prev[j] == x);
                    }
                    if x == child {
                        assert(children@[prev.len() as int] == child);
                    }
                }
                assert(children@.to_set() =~= prev.to_set().insert(child));
            }
            handles.push(self.handle(child));
            i = i + 1;
        }
        let key = slotmap_insert_new(self);
        let handle = self.handle(key);
        Some((key, handle, children, handles))
    }
}

} // verus!
