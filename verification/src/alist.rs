//! The mathematical model of the keyed tables the core stores: a sequence of
//! key–value pairs read by first match. Every table keeps its keys unique, so
//! first-match lookup coincides with map lookup; the lemmas here say how a
//! lookup changes under the three writes a table sees — update in place,
//! append of a fresh key, and removal.

use vstd::prelude::*;

verus! {

/// First-match lookup.
pub open spec fn alist_get<K, V>(s: Seq<(K, V)>, k: K) -> Option<V>
    decreases s.len(),
{
    if s.len() == 0 {
        None
    } else if s[0].0 == k {
        Some(s[0].1)
    } else {
        alist_get(s.drop_first(), k)
    }
}

/// No key occurs twice.
pub open spec fn unique_keys<K, V>(s: Seq<(K, V)>) -> bool {
    forall|i: int, j: int| 0 <= i < j < s.len() ==> s[i].0 != s[j].0
}

/// A lookup that hits the first occurrence of `k` at position `i` returns the
/// value stored there.
pub proof fn lemma_get_at_first_match<K, V>(s: Seq<(K, V)>, k: K, i: int)
    requires
        0 <= i < s.len(),
        s[i].0 == k,
        forall|j: int| 0 <= j < i ==> s[j].0 != k,
    ensures
        alist_get(s, k) == Some(s[i].1),
    decreases i,
{
    if i > 0 {
        lemma_get_at_first_match(s.drop_first(), k, i - 1);
    }
}

/// A key that occurs nowhere is unbound.
pub proof fn lemma_get_absent<K, V>(s: Seq<(K, V)>, k: K)
    requires
        forall|j: int| 0 <= j < s.len() ==> s[j].0 != k,
    ensures
        alist_get(s, k) is None,
    decreases s.len(),
{
    if s.len() > 0 {
        lemma_get_absent(s.drop_first(), k);
    }
}

/// Replacing the value at position `i` rebinds the key stored there — provided
/// position `i` is its first occurrence — and leaves every other key alone.
pub proof fn lemma_get_update<K, V>(s: Seq<(K, V)>, i: int, v: V)
    requires
        0 <= i < s.len(),
        forall|j: int| 0 <= j < i ==> s[j].0 != s[i].0,
    ensures
        alist_get(s.update(i, (s[i].0, v)), s[i].0) == Some(v),
        forall|k2: K| k2 != s[i].0 ==> alist_get(s.update(i, (s[i].0, v)), k2) == alist_get(s, k2),
        unique_keys(s) ==> unique_keys(s.update(i, (s[i].0, v))),
    decreases s.len(),
{
    let k = s[i].0;
    let s2 = s.update(i, (k, v));
    assert(forall|x: int| 0 <= x < s.len() ==> s2[x].0 == s[x].0);
    if i == 0 {
        assert(s2[0] == (k, v));
        assert(s2.drop_first() =~= s.drop_first());
        assert forall|k2: K| k2 != k implies alist_get(s2, k2) == alist_get(s, k2) by {
            assert(alist_get(s2, k2) == alist_get(s2.drop_first(), k2));
            assert(alist_get(s, k2) == alist_get(s.drop_first(), k2));
        }
    } else {
        let t = s.drop_first().update(i - 1, (k, v));
        assert(s2[0] == s[0]);
        assert(s2.drop_first() =~= t);
        assert(s.drop_first()[i - 1].0 == k);
        lemma_get_update(s.drop_first(), i - 1, v);
        assert forall|k2: K| k2 != k implies alist_get(s2, k2) == alist_get(s, k2) by {
            if s[0].0 != k2 {
                assert(alist_get(s2, k2) == alist_get(s2.drop_first(), k2));
                assert(alist_get(s, k2) == alist_get(s.drop_first(), k2));
                assert(alist_get(t, k2) == alist_get(s.drop_first(), k2));
            }
        }
    }
}

/// Appending a binding for a key that occurs nowhere binds that key to the new
/// value and leaves every other key alone.
pub proof fn lemma_get_push<K, V>(s: Seq<(K, V)>, k: K, v: V)
    requires
        forall|j: int| 0 <= j < s.len() ==> s[j].0 != k,
    ensures
        alist_get(s.push((k, v)), k) == Some(v),
        forall|k2: K| k2 != k ==> alist_get(s.push((k, v)), k2) == alist_get(s, k2),
        unique_keys(s) ==> unique_keys(s.push((k, v))),
    decreases s.len(),
{
    let s2 = s.push((k, v));
    if s.len() == 0 {
        assert(s2[0] == (k, v));
        assert(s2.len() == 1);
        assert forall|k2: K| k2 != k implies alist_get(s2, k2) == alist_get(s, k2) by {
            assert(s2.drop_first() =~= Seq::<(K, V)>::empty());
            assert(alist_get(Seq::<(K, V)>::empty(), k2) is None);
            assert(alist_get(s2, k2) is None);
            assert(alist_get(s, k2) is None);
        }
    } else {
        let t = s.drop_first().push((k, v));
        assert(s2[0] == s[0]);
        assert(s2.drop_first() =~= t);
        lemma_get_push(s.drop_first(), k, v);
        assert forall|k2: K| k2 != k implies alist_get(s2, k2) == alist_get(s, k2) by {
            if s[0].0 != k2 {
                assert(alist_get(s2, k2) == alist_get(s2.drop_first(), k2));
                assert(alist_get(s, k2) == alist_get(s.drop_first(), k2));
                assert(alist_get(t, k2) == alist_get(s.drop_first(), k2));
            }
        }
    }
    assert(unique_keys(s) ==> unique_keys(s2)) by {
        if unique_keys(s) {
            assert(forall|x: int, y: int| 0 <= x < y < s2.len() ==> s2[x].0 != s2[y].0) by {
                assert(forall|x: int| 0 <= x < s.len() ==> s2[x].0 == s[x].0);
                assert(s2[s.len() as int].0 == k);
            }
        }
    }
}

/// Removing the binding at position `i` of a table with unique keys unbinds
/// the key stored there and leaves every other key alone.
pub proof fn lemma_get_remove<K, V>(s: Seq<(K, V)>, i: int)
    requires
        0 <= i < s.len(),
        unique_keys(s),
    ensures
        alist_get(s.remove(i), s[i].0) is None,
        forall|k2: K| k2 != s[i].0 ==> alist_get(s.remove(i), k2) == alist_get(s, k2),
        unique_keys(s.remove(i)),
    decreases s.len(),
{
    let k = s[i].0;
    let s2 = s.remove(i);
    assert(forall|x: int| 0 <= x < i ==> s2[x] == s[x]);
    assert(forall|x: int| i <= x < s2.len() ==> s2[x] == s[x + 1]);
    if i == 0 {
        assert(s2 =~= s.drop_first());
        assert(forall|j: int| 0 <= j < s2.len() ==> s2[j].0 != k);
        lemma_get_absent(s2, k);
        assert forall|k2: K| k2 != k implies alist_get(s2, k2) == alist_get(s, k2) by {
            assert(alist_get(s, k2) == alist_get(s.drop_first(), k2));
        }
    } else {
        let t = s.drop_first().remove(i - 1);
        assert(s2[0] == s[0]);
        assert(s2.drop_first() =~= t);
        assert(s.drop_first()[i - 1].0 == k);
        lemma_get_remove(s.drop_first(), i - 1);
        assert forall|k2: K| k2 != k implies alist_get(s2, k2) == alist_get(s, k2) by {
            if s[0].0 != k2 {
                assert(alist_get(s2, k2) == alist_get(s2.drop_first(), k2));
                assert(alist_get(s, k2) == alist_get(s.drop_first(), k2));
                assert(alist_get(t, k2) == alist_get(s.drop_first(), k2));
            }
        }
    }
}

} // verus!
