//! A minimal indexable container with checked indexing, and a selection sort
//! written against it alone.

use vstd::prelude::*;

use crate::order::{
    lemma_sorted_permutation_unique, lemma_swap_permutes, partition, permutation, sorted,
    sorted_range,
};

verus! {

broadcast use vstd::seq_lib::group_to_multiset_ensures;

/// A growable sequence that is read and written only at indices below its
/// length.
pub struct VecWrapper<T> {
    inner: Vec<T>,
}

impl<T> View for VecWrapper<T> {
    type V = Seq<T>;

    closed spec fn view(&self) -> Seq<T> {
        self.inner@
    }
}

impl<T> VecWrapper<T> {
    /// An empty sequence.
    pub fn new() -> (r: Self)
        ensures
            r@ == Seq::<T>::empty(),
    {
        VecWrapper { inner: Vec::new() }
    }

    pub fn len(&self) -> (r: usize)
        ensures
            r == self@.len(),
    {
        self.inner.len()
    }

    /// Appends `item` at the end.
    pub fn push(&mut self, item: T)
        ensures
            final(self)@ == old(self)@.push(item),
    {
        self.inner.push(item);
    }

    /// The element at `idx`.
    pub fn get(&self, idx: usize) -> (r: &T)
        requires
            idx < self@.len(),
        ensures
            *r == self@[idx as int],
    {
        &self.inner[idx]
    }

    /// A mutable borrow of the element at `idx`; whatever is written through
    /// it lands at `idx` and nowhere else.
    pub fn get_mut(&mut self, idx: usize) -> (r: &mut T)
        requires
            idx < old(self)@.len(),
        ensures
            *r == old(self)@[idx as int],
            final(self)@ == old(self)@.update(idx as int, *final(r)),
    {
        &mut self.inner[idx]
    }
}

impl VecWrapper<i64> {
    /// Whether the element at `i` is at most the element at `j`.
    pub fn le(&self, i: usize, j: usize) -> (r: bool)
        requires
            i < self@.len(),
            j < self@.len(),
        ensures
            r == (self@[i as int] <= self@[j as int]),
    {
        *self.get(i) <= *self.get(j)
    }
}

/// Sorts `arr` by selection, reading and writing it only through the
/// container's checked accessors.
pub fn selection_sort_vec_wrapper(arr: &mut VecWrapper<i64>)
    ensures
        final(arr)@.len() == old(arr)@.len(),
        permutation(final(arr)@, old(arr)@),
        sorted(final(arr)@),
        sorted(old(arr)@) ==> final(arr)@ == old(arr)@,
{
    let len = arr.len();
    if len <= 1 {
        proof {
            assert(sorted(arr@));
            lemma_sorted_permutation_unique(arr@, old(arr)@);
        }
        return;
    }
    let mut i: usize = 0;
    while i < len
        invariant
            arr@.len() == len,
            i <= len,
            permutation(arr@, old(arr)@),
            sorted_range(arr@, 0, i as int),
            partition(arr@, i as int),
        decreases len - i,
    {
        let mut j: usize = i + 1;
        let mut min: usize = i;
        while j < len
            invariant
                arr@.len() == len,
                i < len,
                i < j <= len,
                i <= min < j,
                forall|k: int| i <= k < j ==> arr@[min as int] <= #[trigger] arr@[k],
            decreases len - j,
        {
            if arr.le(j, min) {
                min = j;
            }
            j += 1;
        }
        let ghost before = arr@;
        proof {
            lemma_swap_permutes(before, i as int, min as int);
        }
        let arr_i = *arr.get(i);
        let arr_min = *arr.get(min);
        *arr.get_mut(i) = arr_min;
        *arr.get_mut(min) = arr_i;
        assert(arr@ == before.update(i as int, before[min as int]).update(min as int, before[i as int]));
        assert(sorted_range(arr@, 0, i + 1)) by {
            assert forall|a: int, b: int| 0 <= a < b < i + 1 implies #[trigger] arr@[a]
                <= #[trigger] arr@[b] by {
                if b == i {
                    assert(before[a] <= before[min as int]);
                }
            }
        }
        assert(partition(arr@, i + 1)) by {
            assert forall|a: int, b: int| 0 <= a < i + 1 <= b < len implies #[trigger] arr@[a]
                <= #[trigger] arr@[b] by {
                if b == min {
                    assert(before[min as int] <= before[i as int]);
                } else {
                    assert(before[min as int] <= before[b]);
                }
            }
        }
        i += 1;
    }
    proof {
        if sorted(old(arr)@) {
            lemma_sorted_permutation_unique(arr@, old(arr)@);
        }
    }
}

} // verus!
