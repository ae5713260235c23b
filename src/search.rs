//! Binary search over a sorted slice, and bisection over a monotonic function
//! on a bounded integer domain.

use vstd::prelude::*;

use crate::order::sorted;

verus! {

/// A non-decreasing function from the domain `[0, domain_size())` to `i32`.
pub trait BisectFunction {
    /// The number of points in the domain.
    spec fn spec_domain_size(&self) -> nat;

    /// The value at point `x` of the domain.
    spec fn spec_eval(&self, x: int) -> i32;

    /// The number of points in the domain.
    fn domain_size(&self) -> (n: usize)
        ensures
            n == self.spec_domain_size(),
    ;

    /// The value at point `x`, which must lie in the domain.
    fn eval(&self, x: usize) -> (r: i32)
        requires
            x < self.spec_domain_size(),
        ensures
            r == self.spec_eval(x as int),
    ;
}

/// `f` never decreases as its argument grows over its domain.
pub open spec fn monotonic<F: BisectFunction>(f: &F) -> bool {
    forall|x1: int, x2: int|
        0 <= x1 <= x2 < f.spec_domain_size() ==> #[trigger] f.spec_eval(x1) <= #[trigger] f.spec_eval(
            x2,
        )
}

/// A table of values is a function on its indices.
impl BisectFunction for Vec<i32> {
    open spec fn spec_domain_size(&self) -> nat {
        self@.len()
    }

    open spec fn spec_eval(&self, x: int) -> i32 {
        self@[x]
    }

    fn domain_size(&self) -> (n: usize) {
        self.len()
    }

    fn eval(&self, x: usize) -> (r: i32) {
        self[x]
    }
}

/// Finds a point of `f`'s domain where `f` takes the value `target`, or
/// `None` when there is none.
pub fn bisect<T: BisectFunction>(f: &T, target: i32) -> (r: Option<usize>)
    requires
        monotonic(f),
    ensures
        match r {
            Some(x) => x < f.spec_domain_size() && f.spec_eval(x as int) == target,
            None => forall|x: int| 0 <= x < f.spec_domain_size() ==> #[trigger] f.spec_eval(x) != target,
        },
{
    let mut low: usize = 0;
    let mut high: usize = f.domain_size();
    while low < high
        invariant
            low <= high <= f.spec_domain_size(),
            monotonic(f),
            forall|x: int| 0 <= x < low ==> #[trigger] f.spec_eval(x) < target,
            forall|x: int| high <= x < f.spec_domain_size() ==> #[trigger] f.spec_eval(x) > target,
        decreases high - low,
    {
        let mid = low + (high - low) / 2;
        let mid_val = f.eval(mid);
        if mid_val < target {
            low = mid + 1;
        } else if mid_val > target {
            high = mid;
        } else {
            return Some(mid);
        }
    }
    None
}

/// Finds an index of `arr` that holds `target`, or `None` when `target` does
/// not occur in `arr`.
pub fn binary_search(arr: &[i64], target: i64) -> (r: Option<usize>)
    requires
        sorted(arr@),
    ensures
        match r {
            Some(i) => i < arr@.len() && arr@[i as int] == target,
            None => !arr@.contains(target),
        },
{
    let mut lhs: usize = 0;
    let mut rhs: usize = arr.len();
    while lhs < rhs
        invariant
            lhs <= rhs <= arr@.len(),
            sorted(arr@),
            forall|k: int| 0 <= k < lhs ==> #[trigger] arr@[k] < target,
            forall|k: int| rhs <= k < arr@.len() ==> #[trigger] arr@[k] > target,
        decreases rhs - lhs,
    {
        let mid = lhs + (rhs - lhs) / 2;
        if arr[mid] == target {
            return Some(mid);
        } else if arr[mid] > target {
            rhs = mid;
        } else {
            lhs = mid + 1;
        }
    }
    None
}

} // verus!
