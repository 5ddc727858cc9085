//! Association sequences: sequences of key/value pairs, read as maps.
//!
//! The package store and the secret store both keep their entries in a
//! vector with pairwise-distinct keys; their contracts speak of the map
//! that the vector denotes. The lemmas here connect the vector operations
//! (push, remove) to the map operations (insert, remove).

use vstd::prelude::*;

verus! {

/// The map that a key/value sequence denotes; later entries win.
pub open spec fn map_of<K, V>(s: Seq<(K, V)>) -> Map<K, V>
    decreases s.len(),
{
    if s.len() == 0 {
        Map::empty()
    } else {
        map_of(s.drop_last()).insert(s.last().0, s.last().1)
    }
}

/// Whether the keys of a key/value sequence are pairwise distinct.
pub open spec fn unique_keys<K, V>(s: Seq<(K, V)>) -> bool {
    forall|i: int, j: int| 0 <= i < j < s.len() ==> s[i].0 != s[j].0
}

/// A key is in the denoted map exactly when some entry carries it.
pub proof fn lemma_map_of_contains<K, V>(s: Seq<(K, V)>, k: K)
    ensures
        map_of(s).contains_key(k) <==> exists|i: int| 0 <= i < s.len() && s[i].0 == k,
    decreases s.len(),
{
    if s.len() > 0 {
        lemma_map_of_contains(s.drop_last(), k);
        assert(forall|i: int| 0 <= i < s.len() - 1 ==> s.drop_last()[i] == s[i]);
        if s.last().0 == k {
            assert(s[s.len() - 1].0 == k);
        } else if map_of(s).contains_key(k) {
            let i = choose|i: int| 0 <= i < s.drop_last().len() && s.drop_last()[i].0 == k;
            assert(s[i].0 == k);
        } else {
            assert(forall|i: int| 0 <= i < s.len() && s[i].0 == k ==> i == s.len() - 1
                || s.drop_last()[i].0 == k);
        }
    }
}

/// With distinct keys, the entry that carries a key gives its value.
pub proof fn lemma_map_of_index<K, V>(s: Seq<(K, V)>, i: int)
    requires
        unique_keys(s),
        0 <= i < s.len(),
    ensures
        map_of(s).contains_key(s[i].0),
        map_of(s)[s[i].0] == s[i].1,
    decreases s.len(),
{
    if i == s.len() - 1 {
    } else {
        assert(forall|m: int| 0 <= m < s.len() - 1 ==> s.drop_last()[m] == s[m]);
        lemma_map_of_index(s.drop_last(), i);
        assert(s.last().0 != s[i].0);
    }
}

/// Appending an entry is insertion on the map.
pub proof fn lemma_map_of_push<K, V>(s: Seq<(K, V)>, k: K, v: V)
    ensures
        map_of(s.push((k, v))) == map_of(s).insert(k, v),
{
    assert(s.push((k, v)).drop_last() =~= s);
    assert(s.push((k, v)).last() == (k, v));
}

/// Removing the entry that carries a key is removal on the map.
pub proof fn lemma_map_of_remove<K, V>(s: Seq<(K, V)>, i: int)
    requires
        unique_keys(s),
        0 <= i < s.len(),
    ensures
        map_of(s.remove(i)) =~= map_of(s).remove(s[i].0),
    decreases s.len(),
{
    let t = s.remove(i);
    if i == s.len() - 1 {
        assert(t =~= s.drop_last());
        lemma_map_of_contains(s.drop_last(), s[i].0);
        assert(forall|m: int| 0 <= m < s.len() - 1 ==> s.drop_last()[m] == s[m]);
        assert(!map_of(s.drop_last()).contains_key(s[i].0));
        assert(map_of(t) =~= map_of(s).remove(s[i].0));
    } else {
        assert(forall|m: int| 0 <= m < s.len() - 1 ==> s.drop_last()[m] == s[m]);
        assert(t.drop_last() =~= s.drop_last().remove(i));
        assert(t.last() == s.last());
        lemma_map_of_remove(s.drop_last(), i);
        assert(s.last().0 != s[i].0);
        assert(map_of(t) =~= map_of(s).remove(s[i].0));
    }
}

/// A key that no entry carries is absent from the denoted map.
pub proof fn lemma_map_of_absent<K, V>(s: Seq<(K, V)>, k: K)
    requires
        forall|i: int| 0 <= i < s.len() ==> s[i].0 != k,
    ensures
        !map_of(s).contains_key(k),
{
    lemma_map_of_contains(s, k);
}

} // verus!
