//! Sequences of key-value pairs with pairwise distinct keys, read as finite
//! maps.

use vstd::prelude::*;

verus! {

/// Whether some pair of `s` has the key `k`.
pub open spec fn has_key<K, V>(s: Seq<(K, V)>, k: K) -> bool {
    exists|i: int| 0 <= i < s.len() && (#[trigger] s[i]).0 == k
}

/// An index at which `s` has the key `k`.
pub open spec fn key_index<K, V>(s: Seq<(K, V)>, k: K) -> int {
    choose|i: int| 0 <= i < s.len() && (#[trigger] s[i]).0 == k
}

/// No key occurs twice.
pub open spec fn distinct_keys<K, V>(s: Seq<(K, V)>) -> bool {
    forall|i: int, j: int|
        0 <= i < j < s.len() ==> (#[trigger] s[i]).0 != (#[trigger] s[j]).0
}

/// The map from each key of `s` to the value paired with it.
pub open spec fn as_map<K, V>(s: Seq<(K, V)>) -> Map<K, V> {
    Map::new(|k: K| has_key(s, k), |k: K| s[key_index(s, k)].1)
}

/// Each pair of the sequence is an entry of the map.
pub proof fn lemma_as_map_entry<K, V>(s: Seq<(K, V)>, i: int)
    requires
        distinct_keys(s),
        0 <= i < s.len(),
    ensures
        as_map(s).contains_key(s[i].0),
        as_map(s)[s[i].0] == s[i].1,
        key_index(s, s[i].0) == i,
{
    let k = s[i].0;
    assert(has_key(s, k));
    let c = key_index(s, k);
    assert(0 <= c < s.len() && s[c].0 == k);
    if c < i {
        assert(s[c].0 != s[i].0);
    } else if i < c {
        assert(s[i].0 != s[c].0);
    }
}

/// Putting a pair with a new key anywhere into the sequence adds one entry
/// to the map.
pub proof fn lemma_as_map_insert<K, V>(s: Seq<(K, V)>, i: int, k: K, v: V)
    requires
        distinct_keys(s),
        !has_key(s, k),
        0 <= i <= s.len(),
    ensures
        distinct_keys(s.insert(i, (k, v))),
        as_map(s.insert(i, (k, v))) == as_map(s).insert(k, v),
{
    let t = s.insert(i, (k, v));
    assert forall|a: int, b: int| 0 <= a < b < t.len() implies (#[trigger] t[a]).0 != (
    #[trigger] t[b]).0 by {
        let a0 = if a < i {
            a
        } else {
            a - 1
        };
        let b0 = if b < i {
            b
        } else {
            b - 1
        };
        if a == i {
            assert(t[b] == s[b0]);
        } else if b == i {
            assert(t[a] == s[a0]);
        } else {
            assert(t[a] == s[a0]);
            assert(t[b] == s[b0]);
            assert(a0 < b0);
        }
    }
    assert forall|x: K| #[trigger] as_map(t).contains_key(x) <==> as_map(s).insert(
        k,
        v,
    ).contains_key(x) by {
        if has_key(t, x) {
            let j = key_index(t, x);
            if j < i {
                assert(t[j] == s[j]);
            } else if j > i {
                assert(t[j] == s[j - 1]);
            }
        }
        if has_key(s, x) {
            let j = key_index(s, x);
            if j < i {
                assert(t[j] == s[j]);
            } else {
                assert(t[j + 1] == s[j]);
            }
        }
        if x == k {
            assert(t[i].0 == k);
        }
    }
    assert forall|x: K| #[trigger] as_map(t).contains_key(x) implies as_map(t)[x] == as_map(
        s,
    ).insert(k, v)[x] by {
        let j = key_index(t, x);
        lemma_as_map_entry(t, j);
        if j < i {
            assert(t[j] == s[j]);
            lemma_as_map_entry(s, j);
        } else if j > i {
            assert(t[j] == s[j - 1]);
            lemma_as_map_entry(s, j - 1);
        }
    }
    assert(as_map(t) =~= as_map(s).insert(k, v));
}

/// Replacing the value of one pair replaces that entry of the map.
pub proof fn lemma_as_map_update<K, V>(s: Seq<(K, V)>, i: int, v: V)
    requires
        distinct_keys(s),
        0 <= i < s.len(),
    ensures
        distinct_keys(s.update(i, (s[i].0, v))),
        as_map(s.update(i, (s[i].0, v))) == as_map(s).insert(s[i].0, v),
{
    let k = s[i].0;
    let t = s.update(i, (k, v));
    assert forall|a: int, b: int| 0 <= a < b < t.len() implies (#[trigger] t[a]).0 != (
    #[trigger] t[b]).0 by {
        assert(t[a].0 == s[a].0);
        assert(t[b].0 == s[b].0);
    }
    assert forall|x: K| #[trigger] as_map(t).contains_key(x) <==> as_map(s).insert(
        k,
        v,
    ).contains_key(x) by {
        if has_key(t, x) {
            let j = key_index(t, x);
            assert(s[j].0 == x);
        }
        if has_key(s, x) {
            let j = key_index(s, x);
            assert(t[j].0 == x);
        }
        if x == k {
            assert(t[i].0 == k);
        }
    }
    assert forall|x: K| #[trigger] as_map(t).contains_key(x) implies as_map(t)[x] == as_map(
        s,
    ).insert(k, v)[x] by {
        let j = key_index(t, x);
        lemma_as_map_entry(t, j);
        assert(s[j].0 == x);
        lemma_as_map_entry(s, j);
    }
    assert(as_map(t) =~= as_map(s).insert(k, v));
}

/// Taking one pair out of the sequence takes its entry out of the map.
pub proof fn lemma_as_map_remove<K, V>(s: Seq<(K, V)>, i: int)
    requires
        distinct_keys(s),
        0 <= i < s.len(),
    ensures
        distinct_keys(s.remove(i)),
        as_map(s.remove(i)) == as_map(s).remove(s[i].0),
{
    let k = s[i].0;
    let t = s.remove(i);
    assert forall|a: int, b: int| 0 <= a < b < t.len() implies (#[trigger] t[a]).0 != (
    #[trigger] t[b]).0 by {
        let a0 = if a < i {
            a
        } else {
            a + 1
        };
        let b0 = if b < i {
            b
        } else {
            b + 1
        };
        assert(t[a] == s[a0]);
        assert(t[b] == s[b0]);
    }
    assert forall|x: K| #[trigger] as_map(t).contains_key(x) <==> as_map(s).remove(
        k,
    ).contains_key(x) by {
        if has_key(t, x) {
            let j = key_index(t, x);
            let j0 = if j < i {
                j
            } else {
                j + 1
            };
            assert(t[j] == s[j0]);
            if j0 < i {
                assert(s[j0].0 != s[i].0);
            } else {
                assert(s[i].0 != s[j0].0);
            }
        }
        if has_key(s, x) && x != k {
            let j = key_index(s, x);
            if j < i {
                assert(t[j] == s[j]);
            } else {
                assert(t[j - 1] == s[j]);
            }
        }
    }
    assert forall|x: K| #[trigger] as_map(t).contains_key(x) implies as_map(t)[x] == as_map(
        s,
    ).remove(k)[x] by {
        let j = key_index(t, x);
        lemma_as_map_entry(t, j);
        let j0 = if j < i {
            j
        } else {
            j + 1
        };
        assert(t[j] == s[j0]);
        lemma_as_map_entry(s, j0);
    }
    assert(as_map(t) =~= as_map(s).remove(k));
}

/// The map has as many entries as the sequence has pairs.
pub proof fn lemma_as_map_finite<K, V>(s: Seq<(K, V)>)
    requires
        distinct_keys(s),
    ensures
        as_map(s).dom().finite(),
        as_map(s).dom().len() == s.len(),
    decreases s.len(),
{
    if s.len() == 0 {
        assert(as_map(s).dom() =~= Set::<K>::empty());
    } else {
        let n = s.len() - 1;
        let t = s.remove(n);
        lemma_as_map_remove(s, n);
        lemma_as_map_finite(t);
        lemma_as_map_entry(s, n);
        assert(as_map(s).dom() =~= as_map(t).dom().insert(s[n].0));
    }
}

} // verus!
