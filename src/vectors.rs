//! Small constructions of vectors: an empty one, one of a given length, and
//! draining one into another.

use vstd::prelude::*;

verus! {

/// The value that `vec_with_capacity` fills its vector with.
pub const FILL_VALUE: i64 = 123;

/// A new, empty vector.
pub fn vec_must_be_empty<T>() -> (r: Vec<T>)
    ensures
        r@ == Seq::<T>::empty(),
{
    Vec::new()
}

/// Pops every element of `vec` and pushes it onto a new vector, which thus
/// holds the elements of `vec` in reverse order; `vec` is left empty.
pub fn pop_to_zero_correct<T>(vec: &mut Vec<T>) -> (r: Vec<T>)
    ensures
        final(vec)@.len() == 0,
        r@.len() == old(vec)@.len(),
        forall|i: int|
            0 <= i < r@.len() ==> #[trigger] r@[i] == old(vec)@[old(vec)@.len() - 1 - i],
{
    let mut res: Vec<T> = Vec::new();
    let mut i: usize = 0;
    let len = vec.len();
    while i < len
        invariant
            i <= len,
            len == old(vec)@.len(),
            res@.len() == i,
            vec@ == old(vec)@.subrange(0, len - i),
            forall|k: int| 0 <= k < i ==> #[trigger] res@[k] == old(vec)@[len - 1 - k],
        decreases len - i,
    {
        match vec.pop() {
            Some(first) => {
                res.push(first);
            },
            None => {},
        }
        i += 1;
    }
    res
}

/// A vector of `capacity` elements, each `FILL_VALUE`.
pub fn vec_with_capacity(capacity: usize) -> (r: Vec<i64>)
    ensures
        r@.len() == capacity,
        forall|i: int| 0 <= i < capacity ==> #[trigger] r@[i] == FILL_VALUE,
{
    let mut vec: Vec<i64> = Vec::new();
    let mut i: usize = 0;
    while i < capacity
        invariant
            i <= capacity,
            vec@.len() == i,
            forall|k: int| 0 <= k < i ==> #[trigger] vec@[k] == FILL_VALUE,
        decreases capacity - i,
    {
        let item = FILL_VALUE;
        vec.push(item);
        i += 1;
    }
    vec
}

} // verus!
