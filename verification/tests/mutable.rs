use std::task::Poll;

use futures_channel::mpsc::UnboundedReceiver;
use rx_store::map_signals::always;
use rx_store::mutable::{Mutable, MutableState};
use rx_store::sync::LockError;

/// One poll of a subscriber's channel: a value, nothing yet, or the end.
fn poll<A>(rx: &mut UnboundedReceiver<A>) -> Poll<Option<A>> {
    match rx.try_next() {
        Ok(value) => Poll::Ready(value),
        Err(_) => Poll::Pending,
    }
}

/// The polls of `rx` until it ends, running `f` once at the first poll that
/// finds nothing.
fn signal_polls<A, F: FnOnce()>(rx: &mut UnboundedReceiver<A>, f: F) -> Vec<Poll<Option<A>>> {
    let mut out = vec![];
    let mut f = Some(f);
    loop {
        let p = poll(rx);
        let done = matches!(p, Poll::Ready(None));
        let pending = matches!(p, Poll::Pending);
        out.push(p);
        if done {
            break;
        }
        if pending {
            match f.take() {
                Some(f) => f(),
                None => break,
            }
        }
    }
    out
}

#[test]
fn test_mutable() {
    let mutable = Mutable::new(1);
    let mut s1 = mutable.lock_mut().unwrap().signal();
    let mut s2 = mutable.lock_mut().unwrap().signal();

    assert_eq!(poll(&mut s1), Poll::Ready(Some(1)));
    assert_eq!(poll(&mut s1), Poll::Pending);
    assert_eq!(poll(&mut s2), Poll::Ready(Some(1)));
    assert_eq!(poll(&mut s2), Poll::Pending);

    mutable.lock_mut().unwrap().set(5);
    assert_eq!(poll(&mut s1), Poll::Ready(Some(5)));
    assert_eq!(poll(&mut s1), Poll::Pending);
    assert_eq!(poll(&mut s2), Poll::Ready(Some(5)));
    assert_eq!(poll(&mut s2), Poll::Pending);

    drop(mutable);
    assert_eq!(poll(&mut s1), Poll::Ready(None));
    assert_eq!(poll(&mut s2), Poll::Ready(None));
}

#[test]
fn test_mutable_drop() {
    {
        let mutable = Mutable::new(1);
        let mut s1 = mutable.lock_mut().unwrap().signal();
        let mut s2 = mutable.lock_mut().unwrap().signal();
        drop(mutable);

        assert_eq!(poll(&mut s1), Poll::Ready(Some(1)));
        assert_eq!(poll(&mut s1), Poll::Ready(None));
        assert_eq!(poll(&mut s2), Poll::Ready(Some(1)));
        assert_eq!(poll(&mut s2), Poll::Ready(None));
    }

    {
        let mutable = Mutable::new(1);
        let mut s1 = mutable.lock_mut().unwrap().signal();
        let mut s2 = mutable.lock_mut().unwrap().signal();

        assert_eq!(poll(&mut s1), Poll::Ready(Some(1)));
        assert_eq!(poll(&mut s1), Poll::Pending);
        assert_eq!(poll(&mut s2), Poll::Ready(Some(1)));
        assert_eq!(poll(&mut s2), Poll::Pending);

        mutable.lock_mut().unwrap().set(5);
        drop(mutable);

        assert_eq!(poll(&mut s1), Poll::Ready(Some(5)));
        assert_eq!(poll(&mut s1), Poll::Ready(None));
        assert_eq!(poll(&mut s2), Poll::Ready(Some(5)));
        assert_eq!(poll(&mut s2), Poll::Ready(None));
    }

    {
        let mutable = Mutable::new(1);
        let mut s1 = mutable.lock_mut().unwrap().signal();
        let mut s2 = mutable.lock_mut().unwrap().signal();

        assert_eq!(poll(&mut s1), Poll::Ready(Some(1)));
        assert_eq!(poll(&mut s1), Poll::Pending);
        assert_eq!(poll(&mut s2), Poll::Ready(Some(1)));
        assert_eq!(poll(&mut s2), Poll::Pending);

        mutable.lock_mut().unwrap().set(5);
        assert_eq!(poll(&mut s1), Poll::Ready(Some(5)));
        assert_eq!(poll(&mut s1), Poll::Pending);

        drop(mutable);
        assert_eq!(poll(&mut s2), Poll::Ready(Some(5)));
        assert_eq!(poll(&mut s2), Poll::Ready(None));

        assert_eq!(poll(&mut s1), Poll::Ready(None));
    }
}

#[test]
fn test_lock_mut() {
    {
        let m = Mutable::new(1);
        let mut rx = m.lock_mut().unwrap().signal();

        let polls = signal_polls(&mut rx, move || {
            let mut lock = m.lock_mut().unwrap();

            if *lock == 2 {
                lock.set(5);
            }
        });

        assert_eq!(polls, vec![
            Poll::Ready(Some(1)),
            Poll::Pending,
            Poll::Ready(None),
        ]);
    }

    {
        let m = Mutable::new(1);
        let mut rx = m.lock_mut().unwrap().signal();

        let polls = signal_polls(&mut rx, move || {
            let mut lock = m.lock_mut().unwrap();

            if *lock == 1 {
                lock.set(5);
            }
        });

        assert_eq!(polls, vec![
            Poll::Ready(Some(1)),
            Poll::Pending,
            Poll::Ready(Some(5)),
            Poll::Ready(None),
        ]);
    }
}

#[test]
fn test_always() {
    let mut signal = always(1);
    assert_eq!(signal.take(), Some(1));
    assert_eq!(signal.take(), None);
}

#[test]
fn mutable_reads_and_shares() {
    let m = Mutable::new(String::from("a"));
    assert_eq!(m.lock_ref().unwrap().clone(), "a");
    assert_eq!(m.lock_ref().unwrap().clone(), "a");
    assert_eq!(&*m.lock_ref().unwrap(), "a");
    let other = m.clone();
    other.lock_mut().unwrap().set(String::from("b"));
    assert_eq!(m.lock_ref().unwrap().clone(), "b");
    assert_eq!(&*m.lock_mut().unwrap(), "b");
}

#[test]
fn mutable_state_hands_each_subscriber_the_value() {
    let mut state = MutableState::new(7u8);
    assert_eq!(*state.value(), 7);
    let mut rx = state.signal();
    assert_eq!(poll(&mut rx), Poll::Ready(Some(7)));
    state.set(9);
    assert_eq!(*state.value(), 9);
    assert_eq!(state.get_cloned(), 9);
    assert_eq!(poll(&mut rx), Poll::Ready(Some(9)));
    assert_eq!(poll(&mut rx), Poll::Pending);
}

#[test]
fn mutable_state_drops_a_closed_subscriber() {
    let mut state = MutableState::new(1i32);
    let rx = state.signal();
    drop(rx);
    let mut live = state.signal();
    state.set(2);
    assert_eq!(poll(&mut live), Poll::Ready(Some(1)));
    assert_eq!(poll(&mut live), Poll::Ready(Some(2)));
    drop(state);
    assert_eq!(poll(&mut live), Poll::Ready(None));
}

#[test]
fn a_lock_mut_shows_its_changes_and_hands_them_back() {
    let m = Mutable::new(vec![1u8]);
    let mut rx = m.lock_mut().unwrap().signal();
    {
        let mut lock = m.lock_mut().unwrap();
        assert_eq!(*lock, vec![1]);
        lock.set(vec![2, 3]);
        assert_eq!(*lock, vec![2, 3]);
    }
    assert_eq!(m.lock_ref().unwrap().clone(), vec![2, 3]);
    assert_eq!(*m.lock_ref().unwrap(), vec![2, 3]);
    assert_eq!(poll(&mut rx), Poll::Ready(Some(vec![1])));
    assert_eq!(poll(&mut rx), Poll::Ready(Some(vec![2, 3])));
    assert_eq!(poll(&mut rx), Poll::Pending);
}

#[test]
fn a_held_lock_is_refused_without_waiting() {
    let m = Mutable::new(1u8);
    let writer = m.lock_mut().unwrap();
    assert_eq!(m.lock_ref().err(), Some(LockError::WouldBlock));
    assert_eq!(m.lock_mut().err(), Some(LockError::WouldBlock));
    drop(writer);
    let reader = m.lock_ref().unwrap();
    assert!(m.lock_ref().is_ok());
    assert_eq!(m.lock_mut().err(), Some(LockError::WouldBlock));
    drop(reader);
    assert!(m.lock_mut().is_ok());
}

#[test]
fn test_send_sync() {
    let _: Box<dyn Send + Sync> = Box::new(Mutable::new(1));
    let _: Box<dyn Send + Sync> = Box::new(Mutable::new(1).lock_mut().unwrap().signal());
    let _: Box<dyn Send + Sync> = Box::new(rx_store::btree_map::MutableBTreeMap::<u8, u8>::new());
}
