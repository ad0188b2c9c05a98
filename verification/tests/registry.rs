use rx_store::registry::FutureRegistry;
use vec1::Vec1;

#[test]
fn registered_keys_are_new_and_held() {
    let mut r = FutureRegistry::new();
    assert_eq!(r.len(), 0);
    let (k1, t1) = r.register_future(None).unwrap();
    assert!(r.is_registered(k1));
    assert_eq!(r.len(), 1);
    let (k2, _t2) = r.register_future(None).unwrap();
    assert_ne!(k1, k2);
    assert!(r.is_registered(k2));
    assert_eq!(r.len(), 2);
    assert!(!t1.is_cancelled());

    let other = FutureRegistry::new();
    assert!(!other.is_registered(k1));
}

#[test]
fn a_future_under_a_provider_is_cancelled_with_it() {
    let mut r = FutureRegistry::new();
    let (k1, t1) = r.register_future(None).unwrap();
    let (_k2, t2) = r.register_future(Some(k1)).unwrap();
    let (_k3, t3) = r.register_future(None).unwrap();
    t1.cancel();
    assert!(t2.is_cancelled());
    assert!(!t3.is_cancelled());
}

#[test]
fn a_child_does_not_cancel_its_provider() {
    let mut r = FutureRegistry::new();
    let (k1, t1) = r.register_future(None).unwrap();
    let (_k2, t2) = r.register_future(Some(k1)).unwrap();
    t2.cancel();
    assert!(!t1.is_cancelled());
}

#[test]
fn a_dependent_key_waits_on_each_provider() {
    let mut r = FutureRegistry::new();
    let (k1, t1) = r.register_future(None).unwrap();
    let (k2, t2) = r.register_future(None).unwrap();
    let keys = Vec1::try_from_vec(vec![k1, k2]).unwrap();
    assert!(r.holds_all(&keys));
    let (k3, t3, children, parents) = r.derive_dependent(&keys).unwrap();
    assert!(r.is_registered(k3));
    assert_ne!(k3, k1);
    assert_ne!(k3, k2);
    assert_eq!(children.len(), 2);
    assert!(children.iter().all(|c| r.is_registered(*c) && *c != k1 && *c != k2 && *c != k3));
    assert_ne!(children[0], children[1]);
    assert_eq!(r.len(), 5);
    assert_eq!(parents.len(), 2);
    assert!(!t3.is_cancelled());
    t2.cancel();
    assert!(!parents[0].is_cancelled());
    assert!(parents[1].is_cancelled());
    t1.cancel();
    assert!(parents[0].is_cancelled());
}

#[test]
fn holds_all_tells_whether_every_key_is_held() {
    let mut r = FutureRegistry::new();
    let (k1, _) = r.register_future(None).unwrap();
    let other = {
        let mut o = FutureRegistry::new();
        o.register_future(None).unwrap();
        o.register_future(None).unwrap().0
    };
    assert!(r.holds_all(&Vec1::try_from_vec(vec![k1]).unwrap()));
    assert!(!r.holds_all(&Vec1::try_from_vec(vec![k1, other]).unwrap()));
}
