//! The order predicates shared by the sorting and searching routines, and the
//! facts about permutations that their proofs rely on.

use vstd::prelude::*;

verus! {

broadcast use vstd::seq_lib::group_to_multiset_ensures;

/// `s[l..u)` is in non-decreasing order.
pub open spec fn sorted_range(s: Seq<i64>, l: int, u: int) -> bool {
    forall|i: int, j: int| l <= i < j < u ==> #[trigger] s[i] <= #[trigger] s[j]
}

/// Every earlier element is at most every later element.
pub open spec fn sorted(s: Seq<i64>) -> bool {
    sorted_range(s, 0, s.len() as int)
}

/// Every element before index `b` is at most every element at or after `b`.
pub open spec fn partition(s: Seq<i64>, b: int) -> bool {
    forall|k1: int, k2: int| 0 <= k1 < b <= k2 < s.len() ==> #[trigger] s[k1] <= #[trigger] s[k2]
}

/// `a` and `b` hold the same values, each the same number of times.
pub open spec fn permutation(a: Seq<i64>, b: Seq<i64>) -> bool {
    a.to_multiset() == b.to_multiset()
}

/// Exchanging two elements of a sequence leaves its multiset unchanged.
pub proof fn lemma_swap_permutes<A>(s: Seq<A>, i: int, j: int)
    requires
        0 <= i < s.len(),
        0 <= j < s.len(),
    ensures
        s.update(i, s[j]).update(j, s[i]).to_multiset() == s.to_multiset(),
{
    let t = s.update(i, s[j]);
    assert(t[j] == s[j]);
    assert(t.update(j, s[i]).to_multiset() =~= s.to_multiset());
}

/// A sorted sequence is determined by its multiset: two sorted sequences
/// that are permutations of each other are equal.
pub proof fn lemma_sorted_permutation_unique(a: Seq<i64>, b: Seq<i64>)
    requires
        sorted(a),
        sorted(b),
        permutation(a, b),
    ensures
        a == b,
    decreases a.len(),
{
    assert(a.len() == b.len()) by {
        assert(a.to_multiset().len() == b.to_multiset().len());
    }
    if a.len() == 0 {
        assert(a =~= b);
    } else {
        let n = a.len() - 1;
        let x = a[n];
        let y = b[n];
        assert(a.contains(x));
        assert(b.to_multiset().count(x) > 0);
        assert(b.contains(x));
        let p = choose|p: int| 0 <= p < b.len() && b[p] == x;
        assert(b.contains(y));
        assert(a.to_multiset().count(y) > 0);
        assert(a.contains(y));
        let q = choose|q: int| 0 <= q < a.len() && a[q] == y;
        assert(x <= y) by {
            if p < n {
                assert(b[p] <= b[n]);
            }
        }
        assert(y <= x) by {
            if q < n {
                assert(a[q] <= a[n]);
            }
        }
        let a2 = a.remove(n);
        let b2 = b.remove(n);
        assert(a2 =~= a.drop_last());
        assert(b2 =~= b.drop_last());
        assert(a2.to_multiset() == a.to_multiset().remove(x));
        assert(b2.to_multiset() == b.to_multiset().remove(y));
        lemma_sorted_permutation_unique(a2, b2);
        assert(a =~= a2.push(x));
        assert(b =~= b2.push(y));
    }
}

} // verus!
