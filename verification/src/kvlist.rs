//! Key-value sequences viewed as maps.
//!
//! The registry stores its mappings (name to class, address to host object,
//! selector to implementation) as vectors of pairs with pairwise-distinct
//! keys; this module gives such a sequence its `Map` view and the lemmas that
//! connect searching and in-place updates to that view.

use vstd::prelude::*;

verus! {

/// The map described by a key-value sequence; a later pair wins over an
/// earlier one with the same key.
pub open spec fn kv_map<K, V>(s: Seq<(K, V)>) -> Map<K, V>
    decreases s.len(),
{
    if s.len() == 0 {
        Map::empty()
    } else {
        kv_map(s.drop_last()).insert(s.last().0, s.last().1)
    }
}

/// Pairwise-distinct keys.
pub open spec fn kv_unique<K, V>(s: Seq<(K, V)>) -> bool {
    forall|i: int, j: int| 0 <= i < j < s.len() ==> (#[trigger] s[i]).0 != (#[trigger] s[j]).0
}

/// With distinct keys, the map contains exactly the keys of the sequence, and
/// each maps to the value paired with it.
pub proof fn lemma_kv_map_props<K, V>(s: Seq<(K, V)>)
    requires
        kv_unique(s),
    ensures
        forall|k: K|
            #[trigger] kv_map(s).contains_key(k) <==> exists|i: int|
                0 <= i < s.len() && (#[trigger] s[i]).0 == k,
        forall|i: int|
            0 <= i < s.len() ==> kv_map(s).contains_key((#[trigger] s[i]).0) && kv_map(s)[s[i].0]
                == s[i].1,
    decreases s.len(),
{
    if s.len() > 0 {
        let s0 = s.drop_last();
        lemma_kv_map_props(s0);
        assert forall|i: int| 0 <= i < s.len() implies kv_map(s).contains_key(
            (#[trigger] s[i]).0,
        ) && kv_map(s)[s[i].0] == s[i].1 by {
            if i < s.len() - 1 {
                assert(s0[i] == s[i]);
                assert(s[i].0 != s.last().0);
            }
        }
        assert forall|k: K| #[trigger] kv_map(s).contains_key(k) implies exists|i: int|
            0 <= i < s.len() && (#[trigger] s[i]).0 == k by {
            if k != s.last().0 {
                assert(kv_map(s0).contains_key(k));
                let i = choose|i: int| 0 <= i < s0.len() && (#[trigger] s0[i]).0 == k;
                assert(s[i].0 == k);
            } else {
                assert(s[s.len() - 1].0 == k);
            }
        }
    }
}

/// Replacing the value at position `j` updates the map at that pair's key.
pub proof fn lemma_kv_map_update<K, V>(s: Seq<(K, V)>, j: int, v: V)
    requires
        kv_unique(s),
        0 <= j < s.len(),
    ensures
        kv_unique(s.update(j, (s[j].0, v))),
        kv_map(s.update(j, (s[j].0, v))) == kv_map(s).insert(s[j].0, v),
    decreases s.len(),
{
    let t = s.update(j, (s[j].0, v));
    assert forall|i1: int, i2: int| 0 <= i1 < i2 < t.len() implies (#[trigger] t[i1]).0 != (
    #[trigger] t[i2]).0 by {
        assert(t[i1].0 == s[i1].0 && t[i2].0 == s[i2].0);
    }
    if j == s.len() - 1 {
        assert(t.drop_last() =~= s.drop_last());
        assert(kv_map(t) =~= kv_map(s).insert(s[j].0, v));
    } else {
        let s0 = s.drop_last();
        lemma_kv_map_update(s0, j, v);
        assert(t.drop_last() =~= s0.update(j, (s0[j].0, v)));
        assert(t.last() == s.last());
        assert(s[j].0 != s.last().0);
        assert(kv_map(t) =~= kv_map(s).insert(s[j].0, v));
    }
}

/// Appending a pair with a fresh key extends both the key set and the map.
pub proof fn lemma_kv_map_push<K, V>(s: Seq<(K, V)>, k: K, v: V)
    requires
        kv_unique(s),
        forall|i: int| 0 <= i < s.len() ==> (#[trigger] s[i]).0 != k,
    ensures
        kv_unique(s.push((k, v))),
        kv_map(s.push((k, v))) == kv_map(s).insert(k, v),
{
    let t = s.push((k, v));
    assert forall|i1: int, i2: int| 0 <= i1 < i2 < t.len() implies (#[trigger] t[i1]).0 != (
    #[trigger] t[i2]).0 by {
        if i2 < t.len() - 1 {
            assert(t[i1] == s[i1] && t[i2] == s[i2]);
        } else {
            assert(t[i1] == s[i1] && t[i2] == (k, v));
        }
    }
    assert(t.drop_last() =~= s);
    assert(t.last() == (k, v));
}

} // verus!
