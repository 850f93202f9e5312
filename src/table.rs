//! Tables keyed by strings, held as vectors of pairs with unique keys.
use vstd::prelude::*;

use crate::text::str_eq;

verus! {

/// `k` is the key of some entry of `m`.
pub open spec fn has_key<V>(m: Seq<(String, V)>, k: Seq<char>) -> bool {
    exists|i: int| 0 <= i < m.len() && #[trigger] m[i].0@ == k
}

/// No two entries share a key.
pub open spec fn unique_keys<V>(m: Seq<(String, V)>) -> bool {
    forall|i: int, j: int|
        0 <= i < m.len() && 0 <= j < m.len() && #[trigger] m[i].0@ == #[trigger] m[j].0@ ==> i == j
}

/// The index of the entry with key `k`, where there is one.
pub open spec fn index_of<V>(m: Seq<(String, V)>, k: Seq<char>) -> int
    recommends
        has_key(m, k),
{
    choose|i: int| 0 <= i < m.len() && m[i].0@ == k
}

/// The value stored under `k`, where there is one.
pub open spec fn value_of<V>(m: Seq<(String, V)>, k: Seq<char>) -> V
    recommends
        has_key(m, k),
{
    m[index_of(m, k)].1
}

pub proof fn lemma_index_of<V>(m: Seq<(String, V)>, i: int)
    requires
        unique_keys(m),
        0 <= i < m.len(),
    ensures
        has_key(m, m[i].0@),
        index_of(m, m[i].0@) == i,
        value_of(m, m[i].0@) == m[i].1,
{
    let k = m[i].0@;
    assert(has_key(m, k));
    let j = index_of(m, k);
    assert(m[j].0@ == k);
}

/// Appending an entry under a fresh key keeps the keys unique and every old
/// entry where it was.
pub proof fn lemma_push_fresh<V>(m: Seq<(String, V)>, e: (String, V))
    requires
        unique_keys(m),
        !has_key(m, e.0@),
    ensures
        unique_keys(m.push(e)),
        has_key(m.push(e), e.0@),
        value_of(m.push(e), e.0@) == e.1,
        forall|k: Seq<char>| has_key(m, k) ==> has_key(m.push(e), k) && value_of(m.push(e), k) == value_of(m, k),
        forall|k: Seq<char>| has_key(m.push(e), k) <==> (has_key(m, k) || k == e.0@),
{
    let n = m.push(e);
    assert forall|i: int, j: int|
        0 <= i < n.len() && 0 <= j < n.len() && #[trigger] n[i].0@ == #[trigger] n[j].0@ implies i == j by {
        if i < m.len() && j == m.len() {
            assert(m[i].0@ == e.0@);
        }
        if j < m.len() && i == m.len() {
            assert(m[j].0@ == e.0@);
        }
    }
    lemma_index_of(n, m.len() as int);
    assert forall|k: Seq<char>| has_key(m, k) implies has_key(n, k) && value_of(n, k) == value_of(m, k) by {
        let i = index_of(m, k);
        assert(n[i] == m[i]);
        lemma_index_of(n, i);
    }
    assert forall|k: Seq<char>| has_key(n, k) implies (has_key(m, k) || k == e.0@) by {
        let i = choose|i: int| 0 <= i < n.len() && #[trigger] n[i].0@ == k;
        if i < m.len() {
            assert(m[i].0@ == k);
        }
    }
    assert forall|k: Seq<char>| has_key(m, k) implies has_key(n, k) by {
        let i = choose|i: int| 0 <= i < m.len() && #[trigger] m[i].0@ == k;
        assert(n[i].0@ == k);
    }
}

/// Finds the entry with key `k`.
pub fn find_key<V>(m: &Vec<(String, V)>, k: &str) -> (r: Option<usize>)
    ensures
        r matches Some(i) ==> i < m@.len() && m@[i as int].0@ == k@,
        r is None <==> !has_key(m@, k@),
{
    let mut i: usize = 0;
    while i < m.len()
        invariant
            i <= m@.len(),
            forall|j: int| 0 <= j < i ==> #[trigger] m@[j].0@ != k@,
        decreases m@.len() - i,
    {
        if str_eq(m[i].0.as_str(), k) {
            return Some(i);
        }
        i = i + 1;
    }
    None
}

/// The characters of each string, in order.
pub open spec fn views(v: Seq<String>) -> Seq<Seq<char>> {
    v.map_values(|s: String| s@)
}

/// Whether `k` is one of the strings of `v`.
pub fn contains_str(v: &Vec<String>, k: &str) -> (r: bool)
    ensures
        r <==> exists|i: int| 0 <= i < v@.len() && #[trigger] v@[i]@ == k@,
{
    let mut i: usize = 0;
    while i < v.len()
        invariant
            i <= v@.len(),
            forall|j: int| 0 <= j < i ==> #[trigger] v@[j]@ != k@,
        decreases v@.len() - i,
    {
        if str_eq(v[i].as_str(), k) {
            return true;
        }
        i = i + 1;
    }
    false
}

/// Keeps the entries of `m` whose mark is set, in order.
pub fn retain_marked<V>(m: &mut Vec<(String, V)>, keep: &Vec<bool>)
    requires
        old(m)@.len() == keep@.len(),
        unique_keys(old(m)@),
    ensures
        unique_keys(final(m)@),
        final(m)@.len() <= old(m)@.len(),
        forall|k: Seq<char>| #[trigger] has_key(final(m)@, k) <==> (has_key(old(m)@, k) && keep@[index_of(old(m)@, k)]),
        forall|k: Seq<char>| has_key(final(m)@, k) ==> #[trigger] value_of(final(m)@, k) == value_of(old(m)@, k),
{
    let ghost orig = m@;
    let mut kept: Vec<(String, V)> = Vec::new();
    let mut rest: Vec<(String, V)> = Vec::new();
    std::mem::swap(m, &mut rest);
    let mut i: usize = 0;
    let n = rest.len();
    // Take the entries out one at a time from the back, then restore the order.
    let mut taken: Vec<(String, V)> = Vec::new();
    while rest.len() > 0
        invariant
            rest@.len() + taken@.len() == n,
            n == orig.len(),
            forall|j: int| 0 <= j < rest@.len() ==> #[trigger] rest@[j] == orig[j],
            forall|j: int| 0 <= j < taken@.len() ==> #[trigger] taken@[j] == orig[n - 1 - j],
        decreases rest@.len(),
    {
        let e = rest.pop().unwrap();
        taken.push(e);
    }
    while i < n
        invariant
            n == orig.len(),
            n == keep@.len(),
            unique_keys(orig),
            i <= n,
            taken@.len() == n - i,
            forall|j: int| 0 <= j < taken@.len() ==> #[trigger] taken@[j] == orig[n - 1 - j],
            unique_keys(kept@),
            kept@.len() <= i,
            forall|k: Seq<char>| #[trigger] has_key(kept@, k) <==> exists|j: int| 0 <= j < i && orig[j].0@ == k && keep@[j],
            forall|j: int| 0 <= j < i && keep@[j] ==> value_of(kept@, #[trigger] orig[j].0@) == orig[j].1,
        decreases n - i,
    {
        let e = taken.pop().unwrap();
        assert(e == orig[i as int]);
        if keep[i] {
            proof {
                assert(!has_key(kept@, e.0@)) by {
                    if has_key(kept@, e.0@) {
                        let j = choose|j: int| 0 <= j < i && orig[j].0@ == e.0@ && keep@[j];
                        assert(orig[j].0@ == orig[i as int].0@);
                    }
                }
                lemma_push_fresh(kept@, e);
                assert forall|k: Seq<char>| #[trigger] has_key(kept@.push(e), k) <==> exists|j: int| 0 <= j < i + 1 && orig[j].0@ == k && keep@[j] by {
                    if has_key(kept@.push(e), k) && k != e.0@ {
                        assert(has_key(kept@, k));
                    }
                    if exists|j: int| 0 <= j < i + 1 && orig[j].0@ == k && keep@[j] {
                        let j = choose|j: int| 0 <= j < i + 1 && orig[j].0@ == k && keep@[j];
                        if j < i {
                            assert(has_key(kept@, k));
                        }
                    }
                }
                assert forall|j: int| 0 <= j < i + 1 && keep@[j] implies value_of(kept@.push(e), #[trigger] orig[j].0@) == orig[j].1 by {
                    if j < i {
                        assert(orig[j].0@ != e.0@);
                        assert(has_key(kept@, orig[j].0@));
                    }
                }
            }
            kept.push(e);
        } else {
            proof {
                assert forall|k: Seq<char>| #[trigger] has_key(kept@, k) <==> exists|j: int| 0 <= j < i + 1 && orig[j].0@ == k && keep@[j] by {
                    if exists|j: int| 0 <= j < i + 1 && orig[j].0@ == k && keep@[j] {
                        let j = choose|j: int| 0 <= j < i + 1 && orig[j].0@ == k && keep@[j];
                        assert(j != i);
                    }
                }
            }
        }
        i = i + 1;
    }
    proof {
        assert forall|k: Seq<char>| #[trigger] has_key(kept@, k) <==> (has_key(orig, k) && keep@[index_of(orig, k)]) by {
            if has_key(orig, k) {
                let j = index_of(orig, k);
                lemma_index_of(orig, j);
            }
            if exists|j: int| 0 <= j < n && orig[j].0@ == k && keep@[j] {
                let j = choose|j: int| 0 <= j < n && orig[j].0@ == k && keep@[j];
                lemma_index_of(orig, j);
            }
        }
        assert forall|k: Seq<char>| has_key(kept@, k) implies #[trigger] value_of(kept@, k) == value_of(orig, k) by {
            let j = choose|j: int| 0 <= j < n && orig[j].0@ == k && keep@[j];
            lemma_index_of(orig, j);
        }
    }
    *m = kept;
}

} // verus!
