use vstd::prelude::*;
use std::ops::Deref;
use std::sync::{Arc, RwLock, RwLockReadGuard, RwLockWriteGuard};
use futures_channel::mpsc::{UnboundedReceiver, UnboundedSender};

use crate::channel::{send_message, unbounded_channel};
use crate::diff::clone_faithful;
use crate::sync::{new_rwlock, read_guarded, try_read_rwlock, try_write_rwlock, write_guarded_mut, LockError};

verus! {

/// The state of an observable value: the value and the channels of the
/// subscribers that are told each new value.
#[verifier::reject_recursive_types(A)]
pub struct MutableState<A: Clone> {
    value: A,
    senders: Vec<UnboundedSender<A>>,
    handed: Ghost<Seq<Seq<A>>>,
}

impl<A: Clone> View for MutableState<A> {
    type V = A;

    closed spec fn view(&self) -> A {
        self.value
    }
}

impl<A: Clone> MutableState<A> {
    /// The values handed so far to each subscriber still listening.
    pub closed spec fn handed(&self) -> Seq<Seq<A>> {
        self.handed@
    }

    /// Every subscriber was last handed the current value (when clones give
    /// back equal values).
    pub open spec fn subscribers_current(&self) -> bool {
        clone_faithful::<A>() ==> forall|i: int| 0 <= i < self.handed().len() ==> {
            &&& (#[trigger] self.handed()[i]).len() > 0
            &&& self.handed()[i].last() == self@
        }
    }

    #[verifier::type_invariant]
    pub closed spec fn wf(&self) -> bool {
        &&& self.handed@.len() == self.senders@.len()
        &&& self.subscribers_current()
    }

    /// The state holding `value`, with no subscriber.
    pub fn new(value: A) -> (s: Self)
        ensures
            s@ == value,
            s.handed() == Seq::<Seq<A>>::empty(),
    {
        MutableState { value, senders: Vec::new(), handed: Ghost(Seq::empty()) }
    }

    /// The value, read-only.
    pub fn value(&self) -> (v: &A)
        ensures
            *v == self@,
    {
        &self.value
    }

    /// A clone of the value.
    pub fn get_cloned(&self) -> (v: A)
        ensures
            cloned(self@, v),
    {
        self.value.clone()
    }

    /// Sets the value and hands each subscriber a clone of it, keeping the
    /// subscribers whose channel took it.
    pub fn set(&mut self, value: A)
        ensures
            final(self)@ == value,
            final(self).handed().len() <= old(self).handed().len(),
            forall|j: int| 0 <= j < final(self).handed().len() ==> {
                &&& (#[trigger] final(self).handed()[j]).len() > 0
                &&& cloned(value, final(self).handed()[j].last())
                &&& old(self).handed().contains(final(self).handed()[j].drop_last())
            },
    {
        proof { use_type_invariant(&*self); }
        let mut taken = MutableState { value: value.clone(), senders: Vec::new(), handed: Ghost(Seq::empty()) };
        std::mem::swap(self, &mut taken);
        let MutableState { value: _, senders, handed: Ghost(old_h) } = taken;
        let mut kept: Vec<UnboundedSender<A>> = Vec::new();
        let ghost mut new_h: Seq<Seq<A>> = Seq::empty();
        let mut i: usize = 0;
        let n = senders.len();
        for sender in it: senders.into_iter()
            invariant
                n == old_h.len(),
                it.seq().len() == n,
                i == it.index(),
                i <= n,
                kept@.len() == new_h.len(),
                new_h.len() <= i,
                forall|j: int| 0 <= j < new_h.len() ==> {
                    &&& (#[trigger] new_h[j]).len() > 0
                    &&& cloned(value, new_h[j].last())
                    &&& old_h.contains(new_h[j].drop_last())
                },
        {
            let msg = value.clone();
            let ghost gmsg = msg;
            if send_message(&sender, msg) {
                kept.push(sender);
                proof {
                    let prev = new_h;
                    new_h = new_h.push(old_h[i as int].push(gmsg));
                    assert forall|j: int| 0 <= j < new_h.len() implies {
                        &&& (#[trigger] new_h[j]).len() > 0
                        &&& cloned(value, new_h[j].last())
                        &&& old_h.contains(new_h[j].drop_last())
                    } by {
                        if j < prev.len() {
                            assert(new_h[j] == prev[j]);
                        } else {
                            assert(old_h[i as int].push(gmsg).drop_last() =~= old_h[i as int]);
                        }
                    }
                }
            }
            i = i + 1;
        }
        proof {
            if clone_faithful::<A>() {
                assert forall|j: int| 0 <= j < new_h.len() implies new_h[j].last() == value by {
                    assert(cloned(value, new_h[j].last()));
                }
            }
        }
        *self = MutableState { value, senders: kept, handed: Ghost(new_h) };
    }

    /// Adds a subscriber, handing it a clone of the current value, and gives
    /// back the receiving half of its channel.
    pub fn signal(&mut self) -> (receiver: UnboundedReceiver<A>)
        ensures
            final(self)@ == old(self)@,
            final(self).handed().len() == old(self).handed().len() + 1,
            final(self).handed().drop_last() == old(self).handed(),
            final(self).handed().last().len() == 1,
            cloned(old(self)@, final(self).handed().last()[0]),
    {
        proof { use_type_invariant(&*self); }
        let mut taken = MutableState { value: self.value.clone(), senders: Vec::new(), handed: Ghost(Seq::empty()) };
        std::mem::swap(self, &mut taken);
        let MutableState { value, mut senders, handed: Ghost(old_h) } = taken;
        let (sender, receiver) = unbounded_channel();
        let first = value.clone();
        let ghost gfirst = first;
        let _ = send_message(&sender, first);
        senders.push(sender);
        let ghost new_h = old_h.push(seq![gfirst]);
        proof {
            assert(new_h.drop_last() =~= old_h);
            if clone_faithful::<A>() {
                assert(cloned(value, gfirst));
                assert forall|j: int| 0 <= j < new_h.len() implies {
                    &&& (#[trigger] new_h[j]).len() > 0
                    &&& new_h[j].last() == value
                } by {
                    if j < old_h.len() {
                        assert(new_h[j] == old_h[j]);
                        assert(old_h[j] == old(self).handed()[j]);
                    } else {
                        assert(new_h[j] == seq![gfirst]);
                        assert(seq![gfirst].last() == gfirst);
                    }
                }
            }
        }
        *self = MutableState { value, senders, handed: Ghost(new_h) };
        receiver
    }

    /// Law: every subscriber still listening was last handed the current
    /// value (when clones give back equal values).
    pub proof fn lemma_subscribers_current(&self, i: int)
        requires
            self.wf(),
            clone_faithful::<A>(),
            0 <= i < self.handed().len(),
        ensures
            self.handed()[i].len() > 0,
            self.handed()[i].last() == self@,
    {
    }
}

/// Shared access to the value of a `Mutable`, held until dropped.
#[verifier::reject_recursive_types(A)]
pub struct MutableLockRef<'a, A: Clone> {
    lock: RwLockReadGuard<'a, MutableState<A>>,
}

impl<'a, A: Clone> MutableLockRef<'a, A> {
    /// Shared access through `lock`, a guard of the lock of a `Mutable`.
    pub fn new(lock: RwLockReadGuard<'a, MutableState<A>>) -> Self {
        MutableLockRef { lock }
    }
}

impl<'a, A: Clone> Deref for MutableLockRef<'a, A> {
    type Target = A;

    fn deref(&self) -> (v: &A) {
        read_guarded(&self.lock).value()
    }
}

/// Exclusive access to the value of a `Mutable`, held until dropped. The
/// state is held here while the lock is (a clone of the value stands in the
/// lock meanwhile) and put back into the lock when this is dropped. Each
/// `set` made through it is handed on to the subscribers; reading alone
/// tells them nothing.
#[verifier::reject_recursive_types(A)]
pub struct MutableLockMut<'a, A: Clone> {
    lock: RwLockWriteGuard<'a, MutableState<A>>,
    state: MutableState<A>,
}

impl<'a, A: Clone> Drop for MutableLockMut<'a, A> {
    /// Puts the state back into the lock, before the lock is released.
    fn drop(&mut self)
        opens_invariants none
        no_unwind
    {
        let guarded = write_guarded_mut(&mut self.lock);
        std::mem::swap(guarded, &mut self.state);
    }
}

impl<'a, A: Clone> View for MutableLockMut<'a, A> {
    type V = A;

    closed spec fn view(&self) -> A {
        self.state@
    }
}

impl<'a, A: Clone> Deref for MutableLockMut<'a, A> {
    type Target = A;

    fn deref(&self) -> (v: &A)
        ensures
            *v == self@,
    {
        self.state.value()
    }
}

impl<'a, A: Clone> MutableLockMut<'a, A> {
    /// The values handed so far to each subscriber still listening (see
    /// `MutableState::handed`).
    pub closed spec fn handed(&self) -> Seq<Seq<A>> {
        self.state.handed()
    }

    /// Exclusive access through `lock`, a guard of the lock of a `Mutable`:
    /// the state is taken out of the lock, a clone of the value standing in
    /// for it until this is dropped.
    pub fn new(lock: RwLockWriteGuard<'a, MutableState<A>>) -> Self {
        let mut lock = lock;
        let guarded = write_guarded_mut(&mut lock);
        let mut state = MutableState::new(guarded.get_cloned());
        std::mem::swap(guarded, &mut state);
        MutableLockMut { lock, state }
    }

    /// Adds a subscriber (see `MutableState::signal`).
    pub fn signal(&mut self) -> (receiver: UnboundedReceiver<A>)
        ensures
            final(self)@ == old(self)@,
            final(self).handed().len() == old(self).handed().len() + 1,
            final(self).handed().drop_last() == old(self).handed(),
            final(self).handed().last().len() == 1,
            cloned(old(self)@, final(self).handed().last()[0]),
    {
        self.state.signal()
    }

    /// Sets the value and tells the subscribers (see `MutableState::set`).
    pub fn set(&mut self, value: A)
        ensures
            final(self)@ == value,
            final(self).handed().len() <= old(self).handed().len(),
            forall|j: int| 0 <= j < final(self).handed().len() ==> {
                &&& (#[trigger] final(self).handed()[j]).len() > 0
                &&& cloned(value, final(self).handed()[j].last())
                &&& old(self).handed().contains(final(self).handed()[j].drop_last())
            },
    {
        self.state.set(value)
    }
}

/// A value shared between owners, whose new values its subscribers receive.
#[verifier::reject_recursive_types(A)]
pub struct Mutable<A: Clone> {
    state: Arc<RwLock<MutableState<A>>>,
}

impl<A: Clone> Mutable<A> {
    /// A value without subscribers.
    pub fn new(value: A) -> Self {
        Mutable { state: Arc::new(new_rwlock(MutableState::new(value))) }
    }

    /// The lock around the state, for a caller that waits for it.
    pub fn lock(&self) -> (l: &RwLock<MutableState<A>>)
        ensures
            *l == self.rwlock(),
    {
        &*self.state
    }

    /// The lock around the state.
    pub closed spec fn rwlock(&self) -> RwLock<MutableState<A>> {
        *self.state
    }

    /// Shared access to the value, if it can be had without waiting; the
    /// lock refuses it while it is held for writing, here or elsewhere, and
    /// once a panic has poisoned it.
    pub fn lock_ref(&self) -> Result<MutableLockRef<'_, A>, LockError> {
        match try_read_rwlock(&*self.state) {
            Ok(lock) => Ok(MutableLockRef::new(lock)),
            Err(e) => Err(e),
        }
    }

    /// Exclusive access to the value, if it can be had without waiting; the
    /// lock refuses it while it is held, here or elsewhere, and once a panic
    /// has poisoned it.
    pub fn lock_mut(&self) -> Result<MutableLockMut<'_, A>, LockError> {
        match try_write_rwlock(&*self.state) {
            Ok(lock) => Ok(MutableLockMut::new(lock)),
            Err(e) => Err(e),
        }
    }

    /// `self` and `other` are owners of the same value.
    pub closed spec fn shares_with(&self, other: &Self) -> bool {
        self.state == other.state
    }
}

impl<A: Clone> Clone for Mutable<A> {
    /// Another owner of the same value.
    fn clone(&self) -> (out: Self)
        ensures
            out.shares_with(self),
    {
        Mutable { state: Arc::clone(&self.state) }
    }
}

} // verus!
