//! The bridge between an association list (the executable representation of
//! a registry) and the mathematical map it denotes. Both resource tables —
//! connections keyed by handle, sessions keyed by session ID — are lists of
//! key/value pairs with pairwise-distinct keys, and their contracts speak of
//! the denoted `Map`.

use vstd::prelude::*;

verus! {

/// No key occurs twice.
pub open spec fn unique_keys<K, V>(s: Seq<(K, V)>) -> bool {
    forall|i: int, j: int| 0 <= i < j < s.len() ==> (#[trigger] s[i]).0 != (#[trigger] s[j]).0
}

/// The map an association list denotes; a later binding of a key would
/// shadow an earlier one, though with `unique_keys` that never arises.
pub open spec fn assoc_map<K, V>(s: Seq<(K, V)>) -> Map<K, V>
    decreases s.len(),
{
    if s.len() == 0 {
        Map::empty()
    } else {
        assoc_map(s.drop_last()).insert(s.last().0, s.last().1)
    }
}

/// A key is in the denoted map exactly when some pair carries it.
pub proof fn lemma_assoc_map_contains<K, V>(s: Seq<(K, V)>, k: K)
    ensures
        assoc_map(s).contains_key(k) <==> exists|i: int| 0 <= i < s.len() && (#[trigger] s[i]).0
            == k,
    decreases s.len(),
{
    if s.len() > 0 {
        lemma_assoc_map_contains(s.drop_last(), k);
        if s.last().0 == k {
            assert(s[s.len() - 1].0 == k);
        } else if assoc_map(s).contains_key(k) {
            let i = choose|i: int| 0 <= i < s.drop_last().len() && (#[trigger] s.drop_last()[i]).0
                == k;
            assert(s[i].0 == k);
        } else {
            if exists|i: int| 0 <= i < s.len() && (#[trigger] s[i]).0 == k {
                let i = choose|i: int| 0 <= i < s.len() && (#[trigger] s[i]).0 == k;
                assert(s.drop_last()[i].0 == k);
            }
        }
    }
}

/// With distinct keys, the pair at any index gives the denoted map's value
/// at its key.
pub proof fn lemma_assoc_map_index<K, V>(s: Seq<(K, V)>, i: int)
    requires
        unique_keys(s),
        0 <= i < s.len(),
    ensures
        assoc_map(s).contains_key(s[i].0),
        assoc_map(s)[s[i].0] == s[i].1,
    decreases s.len(),
{
    if i == s.len() - 1 {
    } else {
        assert(s.drop_last()[i] == s[i]);
        lemma_assoc_map_index(s.drop_last(), i);
        assert(s[i].0 != s.last().0);
    }
}

/// Appending a pair with a fresh key denotes inserting it.
pub proof fn lemma_assoc_map_push<K, V>(s: Seq<(K, V)>, k: K, v: V)
    ensures
        assoc_map(s.push((k, v))) == assoc_map(s).insert(k, v),
{
    assert(s.push((k, v)).drop_last() =~= s);
    assert(s.push((k, v)).last() == (k, v));
}

/// With distinct keys, removing the pair at an index denotes removing its
/// key from the map.
pub proof fn lemma_assoc_map_remove_at<K, V>(s: Seq<(K, V)>, i: int)
    requires
        unique_keys(s),
        0 <= i < s.len(),
    ensures
        assoc_map(s.remove(i)) == assoc_map(s).remove(s[i].0),
    decreases s.len(),
{
    if i == s.len() - 1 {
        assert(s.remove(i) =~= s.drop_last());
        lemma_assoc_map_contains(s.drop_last(), s[i].0);
        assert forall|j: int| 0 <= j < s.drop_last().len() implies (#[trigger] s.drop_last()[j]).0
            != s[i].0 by {
            assert(s[j] == s.drop_last()[j]);
        }
        assert(!assoc_map(s.drop_last()).contains_key(s[i].0));
        assert(assoc_map(s.drop_last()).insert(s.last().0, s.last().1).remove(s[i].0)
            =~= assoc_map(s.drop_last()));
    } else {
        let k = s[i].0;
        assert(s.remove(i).drop_last() =~= s.drop_last().remove(i));
        assert(s.remove(i).last() == s.last());
        assert forall|a: int, b: int| 0 <= a < b < s.drop_last().len() implies (
        #[trigger] s.drop_last()[a]).0 != (#[trigger] s.drop_last()[b]).0 by {
            assert(s.drop_last()[a] == s[a]);
            assert(s.drop_last()[b] == s[b]);
        }
        assert(s.drop_last()[i] == s[i]);
        lemma_assoc_map_remove_at(s.drop_last(), i);
        assert(s.last().0 != k);
        assert(assoc_map(s.drop_last()).remove(k).insert(s.last().0, s.last().1) =~= assoc_map(
            s.drop_last(),
        ).insert(s.last().0, s.last().1).remove(k));
    }
}

/// With distinct keys, replacing the value at an index denotes inserting
/// the new value at that key.
pub proof fn lemma_assoc_map_update_at<K, V>(s: Seq<(K, V)>, i: int, v: V)
    requires
        unique_keys(s),
        0 <= i < s.len(),
    ensures
        assoc_map(s.update(i, (s[i].0, v))) == assoc_map(s).insert(s[i].0, v),
    decreases s.len(),
{
    let k = s[i].0;
    let t = s.update(i, (k, v));
    if i == s.len() - 1 {
        assert(t.drop_last() =~= s.drop_last());
        assert(t.last() == (k, v));
        assert(assoc_map(s.drop_last()).insert(k, v) =~= assoc_map(s.drop_last()).insert(
            s.last().0,
            s.last().1,
        ).insert(k, v));
    } else {
        assert(t.drop_last() =~= s.drop_last().update(i, (k, v)));
        assert(t.last() == s.last());
        assert forall|a: int, b: int| 0 <= a < b < s.drop_last().len() implies (
        #[trigger] s.drop_last()[a]).0 != (#[trigger] s.drop_last()[b]).0 by {
            assert(s.drop_last()[a] == s[a]);
            assert(s.drop_last()[b] == s[b]);
        }
        assert(s.drop_last()[i] == s[i]);
        lemma_assoc_map_update_at(s.drop_last(), i, v);
        assert(s.last().0 != k);
        assert(assoc_map(s.drop_last()).insert(k, v).insert(s.last().0, s.last().1) =~= assoc_map(
            s.drop_last(),
        ).insert(s.last().0, s.last().1).insert(k, v));
    }
}

} // verus!
