//! Maps keyed by names, kept as association lists in insertion order; inserting
//! an existing key replaces its value in place, as `HashMap::insert` does.
use vstd::prelude::*;

use crate::text::eq_chars;

verus! {

/// The first index whose key is `k`.
pub open spec fn assoc_index<V>(m: Seq<(Seq<char>, V)>, k: Seq<char>) -> Option<int>
    decreases m.len(),
{
    if m.len() == 0 {
        None
    } else {
        match assoc_index(m.drop_last(), k) {
            Some(i) => Some(i),
            None => if m.last().0 == k {
                Some(m.len() - 1)
            } else {
                None
            },
        }
    }
}

pub open spec fn assoc_get<V>(m: Seq<(Seq<char>, V)>, k: Seq<char>) -> Option<V> {
    match assoc_index(m, k) {
        Some(i) => Some(m[i].1),
        None => None,
    }
}

pub open spec fn assoc_insert<V>(m: Seq<(Seq<char>, V)>, k: Seq<char>, v: V) -> Seq<(Seq<char>, V)> {
    match assoc_index(m, k) {
        Some(i) => m.update(i, (k, v)),
        None => m.push((k, v)),
    }
}

pub proof fn lemma_assoc_index<V>(m: Seq<(Seq<char>, V)>, k: Seq<char>)
    ensures
        assoc_index(m, k) matches Some(i) ==> 0 <= i < m.len() && m[i].0 == k && forall|j: int|
            0 <= j < i ==> m[j].0 != k,
        assoc_index(m, k) is None <==> forall|j: int| 0 <= j < m.len() ==> m[j].0 != k,
    decreases m.len(),
{
    if m.len() > 0 {
        lemma_assoc_index(m.drop_last(), k);
        assert forall|j: int| 0 <= j < m.len() - 1 implies m.drop_last()[j] == m[j] by {}
    }
}

pub proof fn lemma_assoc_index_at<V>(m: Seq<(Seq<char>, V)>, k: Seq<char>, i: int)
    requires
        0 <= i < m.len(),
        m[i].0 == k,
        forall|j: int| 0 <= j < i ==> m[j].0 != k,
    ensures
        assoc_index(m, k) == Some(i),
    decreases m.len(),
{
    lemma_assoc_index(m, k);
    if i < m.len() - 1 {
        lemma_assoc_index_at(m.drop_last(), k, i);
    } else {
        lemma_assoc_index(m.drop_last(), k);
    }
}

/// After inserting `v` under `k`, looking `k` up gives `v`.
pub proof fn law_assoc_insert_get<V>(m: Seq<(Seq<char>, V)>, k: Seq<char>, v: V)
    ensures
        assoc_get(assoc_insert(m, k, v), k) == Some(v),
{
    lemma_assoc_index(m, k);
    let n = assoc_insert(m, k, v);
    match assoc_index(m, k) {
        Some(i) => {
            assert forall|j: int| 0 <= j < i implies n[j].0 != k by {
                assert(n[j] == m[j]);
            }
            lemma_assoc_index_at(n, k, i);
        },
        None => {
            assert forall|j: int| 0 <= j < m.len() implies n[j].0 != k by {
                assert(n[j] == m[j]);
            }
            lemma_assoc_index_at(n, k, m.len() as int);
        },
    }
}

/// Inserting under `k` leaves what every other key looks up unchanged.
pub proof fn law_assoc_insert_other<V>(m: Seq<(Seq<char>, V)>, k: Seq<char>, v: V, k2: Seq<char>)
    requires
        k2 != k,
    ensures
        assoc_get(assoc_insert(m, k, v), k2) == assoc_get(m, k2),
{
    lemma_assoc_index(m, k);
    lemma_assoc_index(m, k2);
    let n = assoc_insert(m, k, v);
    lemma_assoc_index(n, k2);
    match assoc_index(m, k2) {
        Some(i) => {
            assert(n[i].0 == k2) by {
                if assoc_index(m, k) == Some(i) {
                    assert(m[i].0 == k);
                }
            }
            assert forall|j: int| 0 <= j < i implies n[j].0 != k2 by {
                if assoc_index(m, k) != Some(j) {
                    assert(n[j] == m[j]);
                }
            }
            lemma_assoc_index_at(n, k2, i);
            assert(n[i] == m[i]);
        },
        None => {
            assert forall|j: int| 0 <= j < n.len() implies n[j].0 != k2 by {
                if j < m.len() && assoc_index(m, k) != Some(j) {
                    assert(n[j] == m[j]);
                }
            }
        },
    }
}

/// The views of the keys of a list of entries.
pub open spec fn key_views<V>(m: Seq<(Vec<char>, V)>) -> Seq<Seq<char>> {
    m.map_values(|e: (Vec<char>, V)| e.0@)
}

/// The index of key `k`.
pub fn assoc_find<V>(m: &Vec<(Vec<char>, V)>, k: &[char]) -> (r: Option<usize>)
    ensures
        match r {
            Some(i) => i < m@.len() && m@[i as int].0@ == k@ && forall|j: int|
                0 <= j < i ==> m@[j].0@ != k@,
            None => forall|j: int| 0 <= j < m@.len() ==> m@[j].0@ != k@,
        },
{
    let mut i: usize = 0;
    while i < m.len()
        invariant
            i <= m@.len(),
            forall|j: int| 0 <= j < i ==> m@[j].0@ != k@,
        decreases m.len() - i,
    {
        if eq_chars(m[i].0.as_slice(), k) {
            return Some(i);
        }
        i += 1;
    }
    None
}

/// What `assoc_find` returned, read against a table with the same keys.
pub proof fn lemma_found_index<V, W>(
    m: Seq<(Vec<char>, V)>,
    t: Seq<(Seq<char>, W)>,
    k: Seq<char>,
    r: Option<usize>,
)
    requires
        t.len() == m.len(),
        forall|j: int| 0 <= j < m.len() ==> t[j].0 == m[j].0@,
        match r {
            Some(i) => i < m.len() && m[i as int].0@ == k && forall|j: int|
                0 <= j < i ==> m[j].0@ != k,
            None => forall|j: int| 0 <= j < m.len() ==> m[j].0@ != k,
        },
    ensures
        match r {
            Some(i) => assoc_index(t, k) == Some(i as int),
            None => assoc_index(t, k) is None,
        },
{
    lemma_assoc_index(t, k);
    match r {
        Some(i) => {
            assert forall|j: int| 0 <= j < i implies t[j].0 != k by {
                assert(t[j].0 == m[j].0@);
            }
            lemma_assoc_index_at(t, k, i as int);
        },
        None => {
            assert forall|j: int| 0 <= j < t.len() implies t[j].0 != k by {
                assert(t[j].0 == m[j].0@);
            }
        },
    }
}

} // verus!
