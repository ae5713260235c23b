//! In-place sorts, and insertion into a sorted vector.
//!
//! Each sort leaves its input sorted and a permutation of what it held, and
//! leaves an already sorted input exactly as it was.

use vstd::prelude::*;

use crate::order::{
    lemma_sorted_permutation_unique, lemma_swap_permutes, partition, permutation, sorted,
    sorted_range,
};

verus! {

broadcast use vstd::seq_lib::group_to_multiset_ensures;

/// Exchanges `v[i]` and `v[j]`.
fn swap_elements(v: &mut Vec<i64>, i: usize, j: usize)
    requires
        i < old(v)@.len(),
        j < old(v)@.len(),
    ensures
        final(v)@ == old(v)@.update(i as int, old(v)@[j as int]).update(
            j as int,
            old(v)@[i as int],
        ),
        permutation(final(v)@, old(v)@),
{
    proof {
        lemma_swap_permutes(v@, i as int, j as int);
    }
    let vi = v[i];
    let vj = v[j];
    v.set(i, vj);
    v.set(j, vi);
}

/// Sorts `v` by repeatedly moving the least element of the unsorted suffix
/// to the front of that suffix.
pub fn selection_sort(v: &mut Vec<i64>)
    ensures
        final(v)@.len() == old(v)@.len(),
        permutation(final(v)@, old(v)@),
        sorted(final(v)@),
        sorted(old(v)@) ==> final(v)@ == old(v)@,
{
    let n = v.len();
    let mut i: usize = 0;
    while i < n
        invariant
            v@.len() == n,
            i <= n,
            permutation(v@, old(v)@),
            sorted_range(v@, 0, i as int),
            partition(v@, i as int),
        decreases n - i,
    {
        let mut min: usize = i;
        let mut j: usize = i + 1;
        while j < n
            invariant
                v@.len() == n,
                i < n,
                i < j <= n,
                i <= min < j,
                forall|k: int| i <= k < j ==> v@[min as int] <= #[trigger] v@[k],
            decreases n - j,
        {
            if v[j] < v[min] {
                min = j;
            }
            j += 1;
        }
        let ghost before = v@;
        swap_elements(v, i, min);
        assert(sorted_range(v@, 0, i + 1)) by {
            assert forall|a: int, b: int| 0 <= a < b < i + 1 implies #[trigger] v@[a]
                <= #[trigger] v@[b] by {
                if b == i {
                    assert(before[a] <= before[min as int]);
                }
            }
        }
        assert(partition(v@, i + 1)) by {
            assert forall|a: int, b: int| 0 <= a < i + 1 <= b < n implies #[trigger] v@[a]
                <= #[trigger] v@[b] by {
                if b == min {
                    assert(before[min as int] <= before[i as int]);
                } else {
                    assert(before[min as int] <= before[b]);
                }
            }
        }
        i += 1;
    }
    proof {
        if sorted(old(v)@) {
            lemma_sorted_permutation_unique(v@, old(v)@);
        }
    }
}

/// Sorts `arr` by inserting each element in turn into the sorted prefix
/// before it, shifting the greater elements of that prefix one place right.
pub fn insertion_sort(arr: &mut [i64])
    ensures
        final(arr)@.len() == old(arr)@.len(),
        permutation(final(arr)@, old(arr)@),
        sorted(final(arr)@),
        sorted(old(arr)@) ==> final(arr)@ == old(arr)@,
{
    let len = arr.len();
    if len <= 1 {
        proof {
            assert(sorted(arr@));
            lemma_sorted_permutation_unique(arr@, old(arr)@);
        }
        return;
    }
    let mut i: usize = 1;
    while i < len
        invariant
            arr@.len() == len,
            1 <= i <= len,
            permutation(arr@, old(arr)@),
            sorted_range(arr@, 0, i as int),
        decreases len - i,
    {
        let key = arr[i];
        let mut j: usize = i;
        while j > 0 && arr[j - 1] > key
            invariant
                arr@.len() == len,
                i < len,
                j <= i,
                arr@.update(j as int, key).to_multiset() == old(arr)@.to_multiset(),
                sorted_range(arr@, 0, j as int),
                sorted_range(arr@, j + 1, i + 1),
                forall|k: int| j < k <= i ==> key < #[trigger] arr@[k],
                forall|a: int, b: int|
                    0 <= a < j < b <= i ==> #[trigger] arr@[a] <= #[trigger] arr@[b],
            decreases j,
        {
            let ghost before = arr@;
            proof {
                let u = before.update(j as int, key);
                lemma_swap_permutes(u, j - 1, j as int);
                assert(u.update(j - 1, u[j as int]).update(j as int, u[j - 1]) =~= before.update(
                    j as int,
                    before[j - 1],
                ).update(j - 1, key));
            }
            arr[j] = arr[j - 1];
            j -= 1;
        }
        let ghost before = arr@;
        arr[j] = key;
        assert(arr@ == before.update(j as int, key));
        assert(sorted_range(arr@, 0, i + 1)) by {
            assert forall|a: int, b: int| 0 <= a < b < i + 1 implies #[trigger] arr@[a]
                <= #[trigger] arr@[b] by {
                if b == j && a < j {
                    assert(before[a] <= before[j - 1]);
                }
            }
        }
        i += 1;
    }
    proof {
        if sorted(old(arr)@) {
            lemma_sorted_permutation_unique(arr@, old(arr)@);
        }
    }
}

/// Sorts `v` by passes of adjacent exchanges: each pass carries the greatest
/// element of the unsorted prefix to the end of that prefix.
pub fn bubble_sort(v: &mut Vec<i64>)
    ensures
        final(v)@.len() == old(v)@.len(),
        permutation(final(v)@, old(v)@),
        sorted(final(v)@),
        sorted(old(v)@) ==> final(v)@ == old(v)@,
{
    let n = v.len();
    if n <= 1 {
        proof {
            assert(sorted(v@));
            lemma_sorted_permutation_unique(v@, old(v)@);
        }
        return;
    }
    let mut i: usize = 0;
    while i < n - 1
        invariant
            v@.len() == n,
            n >= 2,
            i <= n - 1,
            permutation(v@, old(v)@),
            sorted_range(v@, n - i, n as int),
            partition(v@, n - i),
        decreases n - 1 - i,
    {
        let mut j: usize = 0;
        while j < n - i - 1
            invariant
                v@.len() == n,
                i < n - 1,
                j <= n - i - 1,
                permutation(v@, old(v)@),
                sorted_range(v@, n - i, n as int),
                partition(v@, n - i),
                forall|k: int| 0 <= k <= j ==> #[trigger] v@[k] <= v@[j as int],
            decreases n - i - 1 - j,
        {
            if v[j] > v[j + 1] {
                let ghost before = v@;
                swap_elements(v, j, j + 1);
                assert(partition(v@, n - i)) by {
                    assert forall|a: int, b: int| 0 <= a < n - i <= b < n implies #[trigger] v@[a]
                        <= #[trigger] v@[b] by {
                        if a == j {
                            assert(before[j + 1] <= before[b]);
                        } else if a == j + 1 {
                            assert(before[j as int] <= before[b]);
                        } else {
                            assert(before[a] <= before[b]);
                        }
                    }
                }
            }
            j += 1;
        }
        assert(sorted_range(v@, n - i - 1, n as int));
        assert(partition(v@, n - i - 1)) by {
            assert forall|a: int, b: int| 0 <= a < n - i - 1 <= b < n implies #[trigger] v@[a]
                <= #[trigger] v@[b] by {
                if b == n - i - 1 {
                    assert(v@[a] <= v@[j as int]);
                }
            }
        }
        i += 1;
    }
    assert(sorted(v@)) by {
        assert forall|a: int, b: int| 0 <= a < b < n implies #[trigger] v@[a] <= #[trigger] v@[b] by {
            if a == 0 {
                assert(partition(v@, 1));
            }
        }
    }
    proof {
        if sorted(old(v)@) {
            lemma_sorted_permutation_unique(v@, old(v)@);
        }
    }
}

/// `k` is where `item` belongs in `s`: every element before `k` is at most
/// `item`, and every element from `k` on is strictly greater.
pub open spec fn insertion_point(s: Seq<i64>, item: i64, k: int) -> bool {
    &&& 0 <= k <= s.len()
    &&& forall|i: int| 0 <= i < k ==> #[trigger] s[i] <= item
    &&& forall|i: int| k <= i < s.len() ==> item < #[trigger] s[i]
}

/// Inserts `item` into the sorted vector `v`, before the first element that
/// is strictly greater than it, so that `v` stays sorted.
pub fn insert_in_order(v: &mut Vec<i64>, item: i64)
    requires
        sorted(old(v)@),
    ensures
        final(v)@.len() == old(v)@.len() + 1,
        sorted(final(v)@),
        permutation(final(v)@, old(v)@.push(item)),
        exists|k: int|
            #[trigger] insertion_point(old(v)@, item, k) && final(v)@ == old(v)@.insert(k, item),
{
    let len = v.len();
    let mut insert_idx: usize = 0;
    if len == 0 || v[len - 1] <= item {
        insert_idx = len;
    } else {
        let mut idx: usize = 0;
        while idx < len
            invariant_except_break
                idx <= len,
                forall|i: int| 0 <= i < idx ==> #[trigger] v@[i] <= item,
            invariant
                v@.len() == len,
                len > 0,
                item < v@[len - 1],
            ensures
                insert_idx < len,
                forall|i: int| 0 <= i < insert_idx ==> #[trigger] v@[i] <= item,
                item < v@[insert_idx as int],
            decreases len - idx,
        {
            if v[idx] > item {
                insert_idx = idx;
                break;
            }
            idx += 1;
        }
    }
    let ghost before = v@;
    assert forall|i: int| insert_idx <= i < len implies item < #[trigger] before[i] by {
        if insert_idx < len {
            assert(before[insert_idx as int] <= before[i]);
        }
    }
    assert(insertion_point(before, item, insert_idx as int));
    v.insert(insert_idx, item);
    assert(sorted(v@)) by {
        assert forall|a: int, b: int| 0 <= a < b < len + 1 implies #[trigger] v@[a]
            <= #[trigger] v@[b] by {
            if a < insert_idx && b > insert_idx {
                assert(before[a] <= before[b - 1]);
            } else if a > insert_idx {
                assert(before[a - 1] <= before[b - 1]);
            }
        }
    }
    assert(v@.to_multiset() == before.push(item).to_multiset()) by {
        assert(before.insert(insert_idx as int, item).to_multiset() == before.to_multiset().insert(
            item,
        ));
    }
}

/// Sorts `v` in place.
pub fn sort(v: &mut Vec<i64>)
    ensures
        final(v)@.len() == old(v)@.len(),
        permutation(final(v)@, old(v)@),
        sorted(final(v)@),
        sorted(old(v)@) ==> final(v)@ == old(v)@,
{
    insertion_sort(v.as_mut_slice());
}

} // verus!
