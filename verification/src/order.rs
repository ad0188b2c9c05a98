use vstd::prelude::*;
use std::cmp::Ordering;
use vstd::laws_cmp::{
    obeys_cmp, obeys_cmp_ord, obeys_cmp_partial_ord, obeys_partial_cmp_spec_properties,
};
use vstd::laws_eq::{obeys_concrete_eq, obeys_eq_spec_properties};
use vstd::std_specs::btree::increasing_seq;
use vstd::std_specs::cmp::{OrdSpec, PartialEqSpec, PartialOrdSpec};

verus! {

/// The `Ord` impl of `K` is a total order and its `PartialEq` is equality.
pub open spec fn ordered_keys<K: Ord>() -> bool {
    obeys_cmp::<K>() && obeys_concrete_eq::<K>()
}

/// `a` comes before `b` in the order of `K`.
pub open spec fn key_lt<K: Ord>(a: K, b: K) -> bool {
    a.cmp_spec(&b) is Less
}

/// The three outcomes of comparing two keys.
#[derive(Debug, Clone, Copy, PartialEq, Eq)]
pub enum KeyOrder {
    Less,
    Equal,
    Greater,
}

/// Compares `a` with `b` by the `Ord` impl of `K`.
pub fn compare_keys<K: Ord>(a: &K, b: &K) -> (r: KeyOrder)
    requires
        ordered_keys::<K>(),
    ensures
        r == KeyOrder::Less <==> key_lt(*a, *b),
        r == KeyOrder::Equal <==> *a == *b,
        r == KeyOrder::Greater <==> key_lt(*b, *a),
{
    proof { lemma_key_order::<K>(); }
    match a.cmp(b) {
        Ordering::Less => KeyOrder::Less,
        Ordering::Equal => KeyOrder::Equal,
        Ordering::Greater => KeyOrder::Greater,
    }
}

/// The facts of a strict total order that `ordered_keys` gives.
pub proof fn lemma_key_order<K: Ord>()
    requires
        ordered_keys::<K>(),
    ensures
        K::obeys_cmp_spec(),
        forall|a: K, b: K| (#[trigger] a.cmp_spec(&b) is Equal) <==> a == b,
        forall|a: K, b: K| #[trigger] key_lt(a, b) <==> (b.cmp_spec(&a) is Greater),
        forall|a: K, b: K| #[trigger] a.cmp_spec(&b) is Greater <==> key_lt(b, a),
        forall|a: K, b: K, c: K| #[trigger] key_lt(a, b) && #[trigger] key_lt(b, c) ==> key_lt(a, c),
        forall|a: K| !(#[trigger] key_lt(a, a)),
        forall|a: K, b: K| #[trigger] key_lt(a, b) || a == b || key_lt(b, a),
{
    reveal(obeys_cmp_ord);
    reveal(obeys_cmp_partial_ord);
    reveal(obeys_partial_cmp_spec_properties);
    reveal(obeys_eq_spec_properties);
    reveal(obeys_concrete_eq);
    assert forall|a: K, b: K| (#[trigger] a.cmp_spec(&b) is Equal) <==> a == b by {
        assert(a.partial_cmp_spec(&b) == Some(a.cmp_spec(&b)));
        assert(a.partial_cmp_spec(&a) == Some(a.cmp_spec(&a)));
    }
    assert forall|a: K, b: K| #[trigger] key_lt(a, b) <==> (b.cmp_spec(&a) is Greater) by {
        assert(a.partial_cmp_spec(&b) == Some(a.cmp_spec(&b)));
        assert(b.partial_cmp_spec(&a) == Some(b.cmp_spec(&a)));
    }
    assert forall|a: K, b: K| #[trigger] a.cmp_spec(&b) is Greater <==> key_lt(b, a) by {
        assert(a.partial_cmp_spec(&b) == Some(a.cmp_spec(&b)));
        assert(b.partial_cmp_spec(&a) == Some(b.cmp_spec(&a)));
    }
    assert forall|a: K, b: K, c: K| #[trigger] key_lt(a, b) && #[trigger] key_lt(b, c) implies key_lt(a, c) by {
        assert(a.partial_cmp_spec(&b) == Some(a.cmp_spec(&b)));
        assert(b.partial_cmp_spec(&c) == Some(b.cmp_spec(&c)));
        assert(a.partial_cmp_spec(&c) == Some(a.cmp_spec(&c)));
    }
    assert forall|a: K| !(#[trigger] key_lt(a, a)) by {
        assert(a.partial_cmp_spec(&a) == Some(a.cmp_spec(&a)));
    }
}

/// `s` is in increasing order of `K`.
pub open spec fn sorted_keys<K: Ord>(s: Seq<K>) -> bool {
    forall|i: int, j: int| 0 <= i < j < s.len() ==> key_lt(s[i], s[j])
}

/// What `increasing_seq` means for keys in a total order.
pub proof fn lemma_increasing_is_sorted<K: Ord>(s: Seq<K>)
    requires
        ordered_keys::<K>(),
    ensures
        increasing_seq(s) <==> sorted_keys(s),
{
    vstd::std_specs::btree::axiom_increasing_seq_meaning(s);
    if increasing_seq(s) {
        assert forall|i: int, j: int| 0 <= i < j < s.len() implies key_lt(s[i], s[j]) by {
            assert(s[i].cmp_spec(&s[j]) is Less);
        }
    }
    if sorted_keys(s) {
        assert forall|i: int, j: int| 0 <= i < j < s.len() implies s[i].cmp_spec(&s[j]) is Less by {
            assert(key_lt(s[i], s[j]));
        }
    }
}

/// A sorted sequence of keys holds each key once.
pub proof fn lemma_sorted_no_duplicates<K: Ord>(s: Seq<K>)
    requires
        ordered_keys::<K>(),
        sorted_keys(s),
    ensures
        s.no_duplicates(),
{
    lemma_key_order::<K>();
    assert forall|i: int, j: int| 0 <= i < s.len() && 0 <= j < s.len() && i != j implies s[i] != s[j] by {
        if i < j {
            assert(key_lt(s[i], s[j]));
        } else {
            assert(key_lt(s[j], s[i]));
        }
    }
}

} // verus!
