//! Finding the first of a sequence of keys that equals a given one.
//!
//! The stores keep their entries in sequences and read them as maps: the
//! first entry with a key is the one that the key names.

use vstd::prelude::*;

verus! {

/// The place of the first of `keys` that equals `k`; the length of `keys` if
/// none does.
pub open spec fn first_index<K>(keys: Seq<K>, k: K) -> int
    decreases keys.len(),
{
    if keys.len() == 0 {
        0
    } else if keys[0] == k {
        0
    } else {
        1 + first_index(keys.drop_first(), k)
    }
}

/// `first_index` is within the sequence, points at `k` if it points at
/// anything, and nothing before it equals `k`.
pub proof fn lemma_first_index<K>(keys: Seq<K>, k: K)
    ensures
        0 <= first_index(keys, k) <= keys.len(),
        first_index(keys, k) < keys.len() ==> keys[first_index(keys, k)] == k,
        forall|i: int| 0 <= i < first_index(keys, k) ==> keys[i] != k,
    decreases keys.len(),
{
    if keys.len() > 0 && keys[0] != k {
        let rest = keys.drop_first();
        lemma_first_index(rest, k);
        assert forall|i: int| 0 <= i < first_index(keys, k) implies keys[i] != k by {
            if i > 0 {
                assert(rest[i - 1] == keys[i]);
            }
        }
    }
}

/// The place `i` is `first_index` if nothing before it equals `k` and it is
/// the end of the sequence or holds `k`.
pub proof fn lemma_first_index_is<K>(keys: Seq<K>, k: K, i: int)
    requires
        0 <= i <= keys.len(),
        forall|j: int| 0 <= j < i ==> keys[j] != k,
        i < keys.len() ==> keys[i] == k,
    ensures
        first_index(keys, k) == i,
{
    lemma_first_index(keys, k);
    let f = first_index(keys, k);
    if f < i {
        assert(keys[f] == k);
    } else if f > i {
        assert(keys[i] != k);
    }
}

} // verus!
