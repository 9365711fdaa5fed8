//! First-match lookup in association lists, at the specification level.

use vstd::prelude::*;

verus! {

/// The index of the first pair whose key is `k`, or `-1` when there is none.
pub open spec fn assoc_idx<K, V>(m: Seq<(K, V)>, k: K) -> int
    decreases m.len(),
{
    if m.len() == 0 {
        -1
    } else if m[0].0 == k {
        0
    } else {
        let r = assoc_idx(m.drop_first(), k);
        if r < 0 {
            -1
        } else {
            r + 1
        }
    }
}

/// Whether the list has a pair with key `k`.
pub open spec fn assoc_has<K, V>(m: Seq<(K, V)>, k: K) -> bool {
    assoc_idx(m, k) >= 0
}

/// Distinct keys.
pub open spec fn assoc_wf<K, V>(m: Seq<(K, V)>) -> bool {
    forall|i: int, j: int| 0 <= i < j < m.len() ==> m[i].0 != m[j].0
}

pub proof fn lemma_assoc_idx_bounds<K, V>(m: Seq<(K, V)>, k: K)
    ensures
        -1 <= assoc_idx(m, k) < m.len(),
        assoc_idx(m, k) >= 0 ==> m[assoc_idx(m, k)].0 == k,
        forall|j: int| 0 <= j < m.len() && m[j].0 == k ==> assoc_idx(m, k) >= 0,
    decreases m.len(),
{
    if m.len() > 0 && m[0].0 != k {
        lemma_assoc_idx_bounds(m.drop_first(), k);
        assert forall|j: int| 0 <= j < m.len() && m[j].0 == k implies assoc_idx(m, k) >= 0 by {
            assert(m.drop_first()[j - 1] == m[j]);
        }
    }
}

/// The first matching index is found by a left-to-right scan.
pub proof fn lemma_assoc_idx_at<K, V>(m: Seq<(K, V)>, k: K, i: int)
    requires
        0 <= i < m.len(),
        m[i].0 == k,
        forall|j: int| 0 <= j < i ==> m[j].0 != k,
    ensures
        assoc_idx(m, k) == i,
    decreases m.len(),
{
    if m[0].0 != k {
        assert(forall|j: int| 0 <= j < m.len() - 1 ==> m.drop_first()[j] == m[j + 1]);
        lemma_assoc_idx_at(m.drop_first(), k, i - 1);
    }
}

/// Appending an entry: an existing key keeps its index, the new key lands
/// at the end, other keys stay absent.
pub proof fn lemma_assoc_idx_push<K, V>(m: Seq<(K, V)>, e: (K, V), k: K)
    ensures
        assoc_idx(m.push(e), k) == (
        if assoc_has(m, k) {
            assoc_idx(m, k)
        } else if e.0 == k {
            m.len() as int
        } else {
            -1
        }),
    decreases m.len(),
{
    lemma_assoc_idx_bounds(m, k);
    if m.len() == 0 {
        assert(m.push(e)[0] == e);
        assert(assoc_idx(m, k) == -1);
        if e.0 == k {
            assert(assoc_idx(m.push(e), k) == 0);
        } else {
            assert(m.push(e).drop_first() =~= Seq::<(K, V)>::empty());
            assert(assoc_idx(m.push(e).drop_first(), k) == -1);
            assert(assoc_idx(m.push(e), k) == -1);
        }
    } else {
        assert(m.push(e)[0] == m[0]);
        if m[0].0 == k {
            assert(assoc_idx(m, k) == 0);
            assert(assoc_idx(m.push(e), k) == 0);
        } else {
            assert(m.push(e).drop_first() =~= m.drop_first().push(e));
            lemma_assoc_idx_push(m.drop_first(), e, k);
            lemma_assoc_idx_bounds(m.drop_first(), k);
            if assoc_idx(m.drop_first(), k) >= 0 {
                assert(assoc_idx(m.push(e), k) == assoc_idx(m.drop_first(), k) + 1);
                assert(assoc_idx(m, k) == assoc_idx(m.drop_first(), k) + 1);
            } else if e.0 == k {
                assert(assoc_idx(m.push(e).drop_first(), k) == m.drop_first().len() as int);
                assert(assoc_idx(m.push(e), k) == m.len() as int);
                assert(assoc_idx(m, k) == -1);
            } else {
                assert(assoc_idx(m.push(e), k) == -1);
                assert(assoc_idx(m, k) == -1);
            }
        }
    }
}

pub proof fn lemma_assoc_idx_none<K, V>(m: Seq<(K, V)>, k: K)
    requires
        forall|j: int| 0 <= j < m.len() ==> m[j].0 != k,
    ensures
        assoc_idx(m, k) == -1,
    decreases m.len(),
{
    if m.len() > 0 {
        assert(forall|j: int| 0 <= j < m.len() - 1 ==> m.drop_first()[j] == m[j + 1]);
        lemma_assoc_idx_none(m.drop_first(), k);
    }
}

} // verus!
