//! Specification-level association sequences: sequences of key/value pairs
//! with pairwise-distinct keys. The binding tables and the action-value
//! mappings are both modelled as such sequences, so the insert / overwrite /
//! remove semantics and its laws live here once, generically.

use vstd::prelude::*;

verus! {

/// True when `s` holds an entry whose key is `k`.
pub open spec fn assoc_has<K, V>(s: Seq<(K, V)>, k: K) -> bool {
    exists|i: int| 0 <= i < s.len() && #[trigger] s[i].0 == k
}

/// The index of the entry whose key is `k`; meaningful only when
/// `assoc_has(s, k)` and `assoc_wf(s)` hold (then it is unique).
pub open spec fn assoc_index<K, V>(s: Seq<(K, V)>, k: K) -> int {
    choose|i: int| 0 <= i < s.len() && #[trigger] s[i].0 == k
}

/// The value stored under key `k`; meaningful only when `assoc_has(s, k)`.
pub open spec fn assoc_get<K, V>(s: Seq<(K, V)>, k: K) -> V {
    s[assoc_index(s, k)].1
}

/// Well-formedness: keys are pairwise distinct, so each key identifies at
/// most one entry.
pub open spec fn assoc_wf<K, V>(s: Seq<(K, V)>) -> bool {
    forall|i: int, j: int| 0 <= i < j < s.len() ==> (#[trigger] s[i]).0 != (#[trigger] s[j]).0
}

/// Insert-or-overwrite: an existing entry for `k` is overwritten in place,
/// otherwise a new entry is appended.
pub open spec fn assoc_set<K, V>(s: Seq<(K, V)>, k: K, v: V) -> Seq<(K, V)> {
    if assoc_has(s, k) {
        s.update(assoc_index(s, k), (k, v))
    } else {
        s.push((k, v))
    }
}

/// Removal: the entry for `k` disappears; with no such entry the sequence is
/// unchanged.
pub open spec fn assoc_remove<K, V>(s: Seq<(K, V)>, k: K) -> Seq<(K, V)> {
    if assoc_has(s, k) {
        s.remove(assoc_index(s, k))
    } else {
        s
    }
}

/// With distinct keys, `assoc_index` is the one and only position of `k`.
pub proof fn lemma_assoc_index_unique<K, V>(s: Seq<(K, V)>, k: K)
    requires
        assoc_wf(s),
        assoc_has(s, k),
    ensures
        0 <= assoc_index(s, k) < s.len(),
        s[assoc_index(s, k)].0 == k,
        forall|i: int| 0 <= i < s.len() && (#[trigger] s[i]).0 == k ==> i == assoc_index(s, k),
{
    let idx = assoc_index(s, k);
    assert(0 <= idx < s.len() && s[idx].0 == k);
    assert forall|i: int| 0 <= i < s.len() && (#[trigger] s[i]).0 == k implies i == idx by {
        if i < idx {
            assert(s[i].0 != s[idx].0);
        } else if idx < i {
            assert(s[idx].0 != s[i].0);
        }
    }
}

/// `assoc_set` keeps the keys pairwise distinct.
pub proof fn lemma_assoc_set_wf<K, V>(s: Seq<(K, V)>, k: K, v: V)
    requires
        assoc_wf(s),
    ensures
        assoc_wf(assoc_set(s, k, v)),
{
    if assoc_has(s, k) {
        lemma_assoc_index_unique(s, k);
    }
}

/// After `assoc_set(s, k, v)`, key `k` is present and maps to `v`.
pub proof fn lemma_assoc_set_same<K, V>(s: Seq<(K, V)>, k: K, v: V)
    requires
        assoc_wf(s),
    ensures
        assoc_has(assoc_set(s, k, v), k),
        assoc_get(assoc_set(s, k, v), k) == v,
{
    let s2 = assoc_set(s, k, v);
    if assoc_has(s, k) {
        lemma_assoc_index_unique(s, k);
        let idx = assoc_index(s, k);
        assert(s2[idx].0 == k);
        lemma_assoc_set_wf(s, k, v);
        lemma_assoc_index_unique(s2, k);
    } else {
        assert(s2[s.len() as int].0 == k);
        lemma_assoc_set_wf(s, k, v);
        lemma_assoc_index_unique(s2, k);
    }
}

/// `assoc_set(s, k, v)` leaves every key other than `k` untouched.
pub proof fn lemma_assoc_set_other<K, V>(s: Seq<(K, V)>, k: K, v: V, k2: K)
    requires
        assoc_wf(s),
        k2 != k,
    ensures
        assoc_has(assoc_set(s, k, v), k2) == assoc_has(s, k2),
        assoc_has(s, k2) ==> assoc_get(assoc_set(s, k, v), k2) == assoc_get(s, k2),
{
    let s2 = assoc_set(s, k, v);
    lemma_assoc_set_wf(s, k, v);
    if assoc_has(s, k) {
        lemma_assoc_index_unique(s, k);
        let idx = assoc_index(s, k);
        if assoc_has(s, k2) {
            lemma_assoc_index_unique(s, k2);
            let idx2 = assoc_index(s, k2);
            assert(s2[idx2].0 == k2);
            lemma_assoc_index_unique(s2, k2);
        }
        if assoc_has(s2, k2) {
            lemma_assoc_index_unique(s2, k2);
            let j = assoc_index(s2, k2);
            assert(j != idx);
            assert(s[j].0 == k2);
        }
    } else {
        if assoc_has(s, k2) {
            lemma_assoc_index_unique(s, k2);
            let idx2 = assoc_index(s, k2);
            assert(s2[idx2].0 == k2);
            lemma_assoc_index_unique(s2, k2);
        }
        if assoc_has(s2, k2) {
            lemma_assoc_index_unique(s2, k2);
            let j = assoc_index(s2, k2);
            assert(j < s.len());
            assert(s[j].0 == k2);
        }
    }
}

/// `assoc_remove` keeps the keys pairwise distinct.
pub proof fn lemma_assoc_remove_wf<K, V>(s: Seq<(K, V)>, k: K)
    requires
        assoc_wf(s),
    ensures
        assoc_wf(assoc_remove(s, k)),
{
    if assoc_has(s, k) {
        lemma_assoc_index_unique(s, k);
    }
}

/// After `assoc_remove(s, k)`, key `k` is gone and every other key keeps its
/// value.
pub proof fn lemma_assoc_remove_get<K, V>(s: Seq<(K, V)>, k: K, k2: K)
    requires
        assoc_wf(s),
    ensures
        !assoc_has(assoc_remove(s, k), k),
        k2 != k ==> assoc_has(assoc_remove(s, k), k2) == assoc_has(s, k2),
        k2 != k && assoc_has(s, k2) ==> assoc_get(assoc_remove(s, k), k2) == assoc_get(s, k2),
{
    let s2 = assoc_remove(s, k);
    lemma_assoc_remove_wf(s, k);
    if assoc_has(s, k) {
        lemma_assoc_index_unique(s, k);
        let idx = assoc_index(s, k);
        assert forall|i: int| 0 <= i < s2.len() implies (#[trigger] s2[i]).0 != k by {
            if i < idx {
                assert(s2[i] == s[i]);
            } else {
                assert(s2[i] == s[i + 1]);
            }
        }
        if k2 != k {
            if assoc_has(s, k2) {
                lemma_assoc_index_unique(s, k2);
                let idx2 = assoc_index(s, k2);
                if idx2 < idx {
                    assert(s2[idx2].0 == k2);
                } else {
                    assert(s2[idx2 - 1] == s[idx2]);
                    assert(s2[idx2 - 1].0 == k2);
                }
                lemma_assoc_index_unique(s2, k2);
                let j = assoc_index(s2, k2);
                if j < idx {
                    assert(s2[j] == s[j]);
                } else {
                    assert(s2[j] == s[j + 1]);
                }
            }
            if assoc_has(s2, k2) {
                let j = choose|i: int| 0 <= i < s2.len() && #[trigger] s2[i].0 == k2;
                if j < idx {
                    assert(s[j].0 == k2);
                } else {
                    assert(s2[j] == s[j + 1]);
                    assert(s[j + 1].0 == k2);
                }
                assert(assoc_has(s, k2));
            }
        }
    }
}

/// Inserting a fresh key and removing it again restores the sequence exactly.
pub proof fn lemma_assoc_set_remove_roundtrip<K, V>(s: Seq<(K, V)>, k: K, v: V)
    requires
        assoc_wf(s),
        !assoc_has(s, k),
    ensures
        assoc_remove(assoc_set(s, k, v), k) == s,
{
    let s2 = assoc_set(s, k, v);
    assert(s2 == s.push((k, v)));
    assert(s2[s.len() as int].0 == k);
    lemma_assoc_set_wf(s, k, v);
    lemma_assoc_index_unique(s2, k);
    assert(assoc_index(s2, k) == s.len() as int);
    assert(assoc_remove(s2, k) =~= s);
}

} // verus!
