//! In-place ascending sorts of integer sample buffers.

use vstd::prelude::*;
use vstd::relations::{sorted_by, total_ordering};

verus! {

broadcast use vstd::seq_lib::group_to_multiset_ensures;

/// Every element is at most every later element.
pub open spec fn sorted_i64(s: Seq<i64>) -> bool {
    forall|a: int, b: int| 0 <= a <= b < s.len() ==> s[a] <= s[b]
}

/// Every element is at most every later element.
pub open spec fn sorted_u64(s: Seq<u64>) -> bool {
    forall|a: int, b: int| 0 <= a <= b < s.len() ==> s[a] <= s[b]
}

/// The ascending order on `i64` as a relation.
pub open spec fn leq_i64() -> spec_fn(i64, i64) -> bool {
    |a: i64, b: i64| a <= b
}

/// The ascending order on `u64` as a relation.
pub open spec fn leq_u64() -> spec_fn(u64, u64) -> bool {
    |a: u64, b: u64| a <= b
}

/// `s` in ascending order.
pub open spec fn sorted_seq_i64(s: Seq<i64>) -> Seq<i64> {
    s.sort_by(leq_i64())
}

/// `s` in ascending order.
pub open spec fn sorted_seq_u64(s: Seq<u64>) -> Seq<u64> {
    s.sort_by(leq_u64())
}

/// A sorted permutation of `s` is `s` in ascending order.
pub proof fn lemma_sorted_i64_is_sort(v: Seq<i64>, s: Seq<i64>)
    requires
        sorted_i64(v),
        v.to_multiset() == s.to_multiset(),
    ensures
        v == sorted_seq_i64(s),
{
    let leq = leq_i64();
    assert(total_ordering(leq));
    s.lemma_sort_by_ensures(leq);
    assert(sorted_by(v, leq));
    vstd::seq_lib::lemma_sorted_unique(v, s.sort_by(leq), leq);
}

/// A sorted permutation of `s` is `s` in ascending order.
pub proof fn lemma_sorted_u64_is_sort(v: Seq<u64>, s: Seq<u64>)
    requires
        sorted_u64(v),
        v.to_multiset() == s.to_multiset(),
    ensures
        v == sorted_seq_u64(s),
{
    let leq = leq_u64();
    assert(total_ordering(leq));
    s.lemma_sort_by_ensures(leq);
    assert(sorted_by(v, leq));
    vstd::seq_lib::lemma_sorted_unique(v, s.sort_by(leq), leq);
}

proof fn lemma_swap_multiset<T>(s: Seq<T>, i: int, j: int)
    requires
        0 <= i < s.len(),
        0 <= j < s.len(),
    ensures
        s.update(i, s[j]).update(j, s[i]).to_multiset() == s.to_multiset(),
{
    broadcast use vstd::multiset::group_multiset_axioms;
    let s1 = s.update(i, s[j]);
    assert(s1.to_multiset() == s.to_multiset().insert(s[j]).remove(s[i]));
    assert(s1[j] == (if i == j { s[i] } else { s[j] }));
    let s2 = s1.update(j, s[i]);
    assert(s2.to_multiset() == s1.to_multiset().insert(s[i]).remove(s1[j]));
    assert(s2.to_multiset() =~= s.to_multiset());
}

/// Sorts ascending (insertion sort); the result is the sorted permutation of the input.
pub fn sort_i64(v: &mut Vec<i64>)
    ensures
        sorted_i64(final(v)@),
        final(v)@.to_multiset() == old(v)@.to_multiset(),
        final(v)@.len() == old(v)@.len(),
        final(v)@ == sorted_seq_i64(old(v)@),
{
    let n = v.len();
    let mut i: usize = 0;
    while i < n
        invariant
            v.len() == n,
            i <= n,
            forall|a: int, b: int| 0 <= a <= b < i ==> v@[a] <= v@[b],
            v@.to_multiset() == old(v)@.to_multiset(),
        decreases n - i,
    {
        let mut j: usize = i;
        while j > 0 && v[j - 1] > v[j]
            invariant
                v.len() == n,
                i < n,
                j <= i,
                forall|a: int, b: int| 0 <= a <= b <= i && a != j && b != j ==> v@[a] <= v@[b],
                forall|b: int| j < b <= i ==> v@[j as int] < v@[b],
                v@.to_multiset() == old(v)@.to_multiset(),
            decreases j,
        {
            let x = v[j];
            let y = v[j - 1];
            proof {
                lemma_swap_multiset(v@, (j - 1) as int, j as int);
            }
            v.set(j - 1, x);
            v.set(j, y);
            j = j - 1;
        }
        i = i + 1;
    }
    proof {
        lemma_sorted_i64_is_sort(v@, old(v)@);
    }
}

/// Sorts ascending (insertion sort); the result is the sorted permutation of the input.
pub fn sort_u64(v: &mut Vec<u64>)
    ensures
        sorted_u64(final(v)@),
        final(v)@.to_multiset() == old(v)@.to_multiset(),
        final(v)@.len() == old(v)@.len(),
        final(v)@ == sorted_seq_u64(old(v)@),
{
    let n = v.len();
    let mut i: usize = 0;
    while i < n
        invariant
            v.len() == n,
            i <= n,
            forall|a: int, b: int| 0 <= a <= b < i ==> v@[a] <= v@[b],
            v@.to_multiset() == old(v)@.to_multiset(),
        decreases n - i,
    {
        let mut j: usize = i;
        while j > 0 && v[j - 1] > v[j]
            invariant
                v.len() == n,
                i < n,
                j <= i,
                forall|a: int, b: int| 0 <= a <= b <= i && a != j && b != j ==> v@[a] <= v@[b],
                forall|b: int| j < b <= i ==> v@[j as int] < v@[b],
                v@.to_multiset() == old(v)@.to_multiset(),
            decreases j,
        {
            let x = v[j];
            let y = v[j - 1];
            proof {
                lemma_swap_multiset(v@, (j - 1) as int, j as int);
            }
            v.set(j - 1, x);
            v.set(j, y);
            j = j - 1;
        }
        i = i + 1;
    }
    proof {
        lemma_sorted_u64_is_sort(v@, old(v)@);
    }
}

} // verus!
