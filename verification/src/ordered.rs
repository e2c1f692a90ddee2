//! Ascending listing of the keys of a `BTreeMap<u64, _>`, the order in which
//! the registries walk their entries.
use std::collections::BTreeMap;
use vstd::prelude::*;
use vstd::std_specs::btree::increasing_seq;
use vstd::std_specs::cmp::OrdSpec;
use vstd::std_specs::iter::IteratorSpec;

verus! {

/// Whether `s` is strictly increasing.
pub open spec fn ascending(s: Seq<u64>) -> bool {
    forall|i: int, j: int| 0 <= i < j < s.len() ==> s[i] < s[j]
}

/// Whether `s` lists exactly the keys `keys`, in increasing order.
pub open spec fn is_key_listing(s: Seq<u64>, keys: Set<u64>) -> bool {
    ascending(s) && s.to_set() == keys
}

/// The keys of `keys` in increasing order (unique, see
/// `lemma_key_listing_unique`; it exists for every finite set of keys).
pub closed spec fn key_listing(keys: Set<u64>) -> Seq<u64> {
    choose|s: Seq<u64>| is_key_listing(s, keys)
}

/// Two increasing listings of the same keys are the same sequence.
pub proof fn lemma_key_listing_unique(s: Seq<u64>, t: Seq<u64>, keys: Set<u64>)
    requires
        is_key_listing(s, keys),
        is_key_listing(t, keys),
    ensures
        s == t,
    decreases s.len(),
{
    if s.len() == 0 {
        if t.len() > 0 {
            assert(t.to_set().contains(t[0]));
            assert(s.to_set().contains(t[0]));
        }
        assert(s =~= t);
    } else {
        assert(s.to_set().contains(s[0]));
        assert(t.to_set().contains(s[0]));
        assert(t.len() > 0);
        assert(t.to_set().contains(t[0]));
        assert(s.to_set().contains(t[0]));
        let i = choose|i: int| 0 <= i < s.len() && s[i] == t[0];
        let j = choose|j: int| 0 <= j < t.len() && t[j] == s[0];
        assert(s[0] <= s[i]);
        assert(t[0] <= t[j]);
        assert(s[0] == t[0]);
        let rest = keys.remove(s[0]);
        let s1 = s.drop_first();
        let t1 = t.drop_first();
        assert forall|k: u64| s1.to_set().contains(k) <==> rest.contains(k) by {
            if s1.to_set().contains(k) {
                let a = choose|a: int| 0 <= a < s1.len() && s1[a] == k;
                assert(s[a + 1] == k);
                assert(s.to_set().contains(k));
            }
            if rest.contains(k) {
                assert(s.to_set().contains(k));
                let a = choose|a: int| 0 <= a < s.len() && s[a] == k;
                assert(a != 0);
                assert(s1[a - 1] == k);
            }
        }
        assert forall|k: u64| t1.to_set().contains(k) <==> rest.contains(k) by {
            if t1.to_set().contains(k) {
                let a = choose|a: int| 0 <= a < t1.len() && t1[a] == k;
                assert(t[a + 1] == k);
                assert(t.to_set().contains(k));
            }
            if rest.contains(k) {
                assert(t.to_set().contains(k));
                let a = choose|a: int| 0 <= a < t.len() && t[a] == k;
                assert(a != 0);
                assert(t1[a - 1] == k);
            }
        }
        assert(s1.to_set() =~= rest);
        assert(t1.to_set() =~= rest);
        lemma_key_listing_unique(s1, t1, rest);
        assert(s.len() == t.len());
        assert forall|a: int| 0 <= a < s.len() implies s[a] == t[a] by {
            if a > 0 {
                assert(s[a] == s1[a - 1]);
                assert(t[a] == t1[a - 1]);
            }
        }
        assert(s =~= t);
    }
}

/// A largest key of a finite, non-empty set of keys.
proof fn lemma_max_key(keys: Set<u64>) -> (m: u64)
    requires
        keys.finite(),
        keys.len() > 0,
    ensures
        keys.contains(m),
        forall|x: u64| keys.contains(x) ==> x <= m,
    decreases keys.len(),
{
    let x = keys.choose();
    let rest = keys.remove(x);
    if rest.len() == 0 {
        assert forall|y: u64| keys.contains(y) implies y <= x by {
            if y != x {
                assert(rest.contains(y));
            }
        }
        x
    } else {
        let m = lemma_max_key(rest);
        let best = if x <= m { m } else { x };
        assert forall|y: u64| keys.contains(y) implies y <= best by {
            if y != x {
                assert(rest.contains(y));
            }
        }
        best
    }
}

/// Every finite set of keys has its increasing listing.
pub proof fn lemma_key_listing_exists(keys: Set<u64>)
    requires
        keys.finite(),
    ensures
        is_key_listing(key_listing(keys), keys),
    decreases keys.len(),
{
    if keys.len() == 0 {
        let t = Seq::<u64>::empty();
        assert(t.to_set() =~= keys);
        assert(is_key_listing(t, keys));
    } else {
        let m = lemma_max_key(keys);
        let rest = keys.remove(m);
        lemma_key_listing_exists(rest);
        let r = key_listing(rest);
        let t = r.push(m);
        assert forall|i: int, j: int| 0 <= i < j < t.len() implies t[i] < t[j] by {
            if j < r.len() {
                assert(t[i] == r[i] && t[j] == r[j]);
            } else {
                assert(t[i] == r[i]);
                assert(r.to_set().contains(r[i]));
                assert(rest.contains(r[i]));
            }
        }
        assert forall|k: u64| t.to_set().contains(k) <==> keys.contains(k) by {
            if t.to_set().contains(k) {
                let a = choose|a: int| 0 <= a < t.len() && t[a] == k;
                if a < r.len() {
                    assert(r[a] == k);
                    assert(r.to_set().contains(k));
                }
            }
            if keys.contains(k) {
                if k == m {
                    assert(t[r.len() as int] == k);
                } else {
                    assert(rest.contains(k));
                    assert(r.to_set().contains(k));
                    let a = choose|a: int| 0 <= a < r.len() && r[a] == k;
                    assert(t[a] == k);
                }
            }
        }
        assert(t.to_set() =~= keys);
        assert(is_key_listing(t, keys));
    }
}

proof fn lemma_increasing_keys<T>(r: Seq<(&u64, &T)>)
    requires
        increasing_seq(r.map_values(|kv: (&u64, &T)| *kv.0)),
    ensures
        forall|i: int, j: int| 0 <= i < j < r.len() ==> *r[i].0 < *r[j].0,
{
    let s = r.map_values(|kv: (&u64, &T)| *kv.0);
    vstd::std_specs::btree::axiom_increasing_seq_meaning::<u64>(s);
    assert forall|i: int, j: int| 0 <= i < j < r.len() implies *r[i].0 < *r[j].0 by {
        assert(s[i].cmp_spec(&s[j]) is Less);
    }
}

/// The keys of `m`, in increasing order.
pub fn sorted_keys<T>(m: &BTreeMap<u64, T>) -> (keys: Vec<u64>)
    ensures
        keys@ == key_listing(m@.dom()),
        is_key_listing(keys@, m@.dom()),
{
    let iter = m.iter();
    let ghost r = iter.remaining();
    proof {
        lemma_increasing_keys(r);
    }
    let mut keys: Vec<u64> = Vec::new();
    for kv in it: iter
        invariant
            it.seq() == r,
            keys.len() == it.index(),
            forall|i: int| 0 <= i < it.index() ==> keys@[i] == *r[i].0,
    {
        let (k, _v) = kv;
        keys.push(*k);
    }
    assert forall|k: u64| m@.contains_key(k) implies keys@.to_set().contains(k) by {
        assert(r.contains((&k, &m@[k])));
        let i = choose|i: int| 0 <= i < r.len() && r[i] == (&k, &m@[k]);
        assert(keys@[i] == k);
    }
    assert forall|k: u64| keys@.to_set().contains(k) implies m@.contains_key(k) by {
        let i = choose|i: int| 0 <= i < keys.len() && keys@[i] == k;
        assert(m@.contains_key(*r[i].0));
    }
    assert(keys@.to_set() =~= m@.dom());
    proof {
        lemma_key_listing_unique(keys@, key_listing(m@.dom()), m@.dom());
    }
    keys
}

} // verus!
