use std::collections::BTreeMap;

use rx_store::btree_map::MutableBTreeMap;
use rx_store::composable::{Composable, ComposableBuilder, ComposableMap, ComposableMapBuilder};
use rx_store::mutable::Mutable;
use rx_store::registry::FutureRegistry;

#[test]
fn and_with_keeps_every_key_in_order() {
    let mut r = FutureRegistry::new();
    let (k1, _) = r.register_future(None).unwrap();
    let (k2, _) = r.register_future(None).unwrap();
    let (k3, _) = r.register_future(None).unwrap();
    let value = Mutable::new(5u32);
    let builder = ComposableBuilder::new_with(value.clone(), k1).and_with(k2).and_with(k3);
    builder.inner().lock_mut().unwrap().set(6);
    let (inner, keys) = builder.into_parts();
    assert_eq!(keys.as_vec(), &vec![k1, k2, k3]);
    assert_eq!(*inner.lock_ref().unwrap(), 6);
    assert_eq!(*value.lock_ref().unwrap(), 6);
}

#[test]
fn a_builder_with_one_future_has_one_key() {
    let mut r = FutureRegistry::new();
    let (k1, _) = r.register_future(None).unwrap();
    let (_, keys) = ComposableBuilder::new_with(Mutable::new('c'), k1).into_parts();
    assert_eq!(keys.as_vec(), &vec![k1]);
}

#[test]
fn a_composable_gives_its_value_and_key() {
    let mut r = FutureRegistry::new();
    let (k, _) = r.register_future(None).unwrap();
    let c = Composable::new(Mutable::new(String::from("v")), k);
    assert_eq!(c.lock_ref().unwrap().clone(), "v");
    assert_eq!(&*c.lock_ref().unwrap(), "v");
    assert_eq!(c.fut_key(), k);
    c.inner().lock_mut().unwrap().set(String::from("w"));
    assert_eq!(c.lock_ref().unwrap().clone(), "w");
}

#[test]
fn a_composed_map_keeps_its_map_and_keys() {
    let mut r = FutureRegistry::new();
    let (k1, _) = r.register_future(None).unwrap();
    let (k2, _) = r.register_future(None).unwrap();
    let map = MutableBTreeMap::new_with_values(BTreeMap::from([(1, 1)]));
    let builder = ComposableMapBuilder::new_with(map.clone(), k1).and_with(k2);
    builder.inner().lock_mut().unwrap().insert(2, 2);
    let (inner, keys) = builder.into_parts();
    assert_eq!(keys.as_vec(), &vec![k1, k2]);
    let c = ComposableMap::new(inner, k2);
    assert_eq!(c.fut_key(), k2);
    assert_eq!(*c.inner().lock_ref().unwrap(), BTreeMap::from([(1, 1), (2, 2)]));
    assert_eq!(*map.lock_ref().unwrap(), BTreeMap::from([(1, 1), (2, 2)]));
}
