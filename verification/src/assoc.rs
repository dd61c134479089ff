//! Association lists keyed by a number.

use vstd::prelude::*;

verus! {

/// The value of the first entry for a key.
pub open spec fn lookup<V>(pairs: Seq<(u32, V)>, key: u32) -> Option<V>
    decreases pairs.len(),
{
    if pairs.len() == 0 {
        None
    } else {
        match lookup(pairs.drop_last(), key) {
            Some(value) => Some(value),
            None => if pairs.last().0 == key {
                Some(pairs.last().1)
            } else {
                None
            },
        }
    }
}

/// What is found among the first entries is found in the whole list.
pub proof fn lemma_lookup_prefix<V>(pairs: Seq<(u32, V)>, key: u32, n: int)
    requires
        0 <= n <= pairs.len(),
        lookup(pairs.take(n), key) is Some,
    ensures
        lookup(pairs, key) == lookup(pairs.take(n), key),
    decreases pairs.len(),
{
    if n < pairs.len() {
        assert(pairs.drop_last().take(n) == pairs.take(n));
        lemma_lookup_prefix(pairs.drop_last(), key, n);
    } else {
        assert(pairs.take(n) == pairs);
    }
}

/// The value of the first entry for a key.
pub fn find<V: Copy>(pairs: &Vec<(u32, V)>, key: u32) -> (r: Option<V>)
    ensures
        r == lookup(pairs@, key),
{
    let mut i: usize = 0;
    assert(pairs@.take(0) == Seq::<(u32, V)>::empty());
    while i < pairs.len()
        invariant
            i <= pairs.len(),
            lookup(pairs@.take(i as int), key) is None,
        decreases pairs.len() - i,
    {
        assert(pairs@.take(i + 1).drop_last() == pairs@.take(i as int));
        if pairs[i].0 == key {
            proof {
                lemma_lookup_prefix(pairs@, key, i + 1);
            }
            return Some(pairs[i].1);
        }
        i += 1;
    }
    assert(pairs@.take(i as int) == pairs@);
    None
}

} // verus!
