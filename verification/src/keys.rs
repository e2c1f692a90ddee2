//! Fresh random identifiers for the registries of the resource manager.
use rand::RngExt;
use std::collections::BTreeMap;
use vstd::prelude::*;

verus! {

#[verifier::external_type_specification]
#[verifier::external_body]
pub struct ExThreadRng(rand::rngs::ThreadRng);

/// Handle to the thread-local generator, from `rand::rng()`. Nothing is
/// stated of it; `rand::rng` panics only if the operating system's random
/// source fails while the generator is first seeded.
#[verifier::external_body]
fn thread_rng() -> rand::rngs::ThreadRng {
    rand::rng()
}

/// One value drawn by `RngExt::random::<u64>` from the generator. The value
/// is random, so nothing is stated of it; the draw panics only if the
/// operating system's random source fails while the generator reseeds.
#[verifier::external_body]
fn random_u64(rng: &mut rand::rngs::ThreadRng) -> u64 {
    rng.random::<u64>()
}

/// The keys `0..=n`.
spec fn keys_up_to(n: u64) -> Set<u64> {
    Set::new(|k: u64| k <= n)
}

proof fn lemma_keys_up_to_len(n: u64)
    ensures
        keys_up_to(n).finite(),
        keys_up_to(n).len() == n + 1,
    decreases n,
{
    if n == 0 {
        assert(keys_up_to(0) =~= Set::empty().insert(0u64));
    } else {
        let m = (n - 1) as u64;
        lemma_keys_up_to_len(m);
        assert(keys_up_to(n) =~= keys_up_to(m).insert(n));
    }
}

/// A map whose keys include every key `0..=n` has more than `n` entries.
proof fn lemma_full_prefix_len<T>(m: Map<u64, T>, n: u64)
    requires
        m.dom().finite(),
        forall|k: u64| k <= n ==> m.contains_key(k),
    ensures
        m.len() > n,
{
    lemma_keys_up_to_len(n);
    assert(keys_up_to(n).subset_of(m.dom()));
    vstd::set_lib::lemma_len_subset(keys_up_to(n), m.dom());
}

/// The smallest key that `map` does not hold; one exists among
/// `0..=map.len()`.
fn first_free_key<T>(map: &BTreeMap<u64, T>) -> (key: u64)
    ensures
        !map@.contains_key(key),
        forall|k: u64| k < key ==> map@.contains_key(k),
{
    let n = map.len() as u64;
    assert(map@.len() == n);
    let mut k: u64 = 0;
    loop
        invariant
            k <= n,
            map@.len() == n,
            map@.dom().finite(),
            forall|x: u64| x < k ==> map@.contains_key(x),
        decreases n - k,
    {
        if !map.contains_key(&k) {
            return k;
        }
        if k == n {
            proof {
                lemma_full_prefix_len(map@, n);
            }
            assert(false);
        }
        k = k + 1;
    }
}

/// A key that `map` does not hold, drawn at random. Keys are drawn until a
/// free one comes up; should `u64::MAX` draws in a row all collide, the
/// smallest free key is taken instead.
pub fn generate<T>(map: &BTreeMap<u64, T>) -> (key: u64)
    ensures
        !map@.contains_key(key),
{
    let mut attempts: u64 = 0;
    while attempts < u64::MAX
        decreases u64::MAX - attempts,
    {
        let mut rng = thread_rng();
        let key = random_u64(&mut rng);
        if !map.contains_key(&key) {
            return key;
        }
        attempts = attempts + 1;
    }
    first_free_key(map)
}

} // verus!
