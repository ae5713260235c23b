//! In-place sorting and searching over sequences of integers, each routine
//! carrying a machine-checked contract: sorts return a sorted permutation of
//! their input, searches return a matching index or prove absence.

mod bounded;
mod order;
mod search;
mod sort;
mod vectors;

pub use bounded::{selection_sort_vec_wrapper, VecWrapper};
pub use order::{
    lemma_sorted_permutation_unique, lemma_swap_permutes, partition, permutation, sorted,
    sorted_range,
};
pub use search::{binary_search, bisect, monotonic, BisectFunction};
pub use sort::{
    bubble_sort, insert_in_order, insertion_point, insertion_sort, selection_sort, sort,
};
pub use vectors::{pop_to_zero_correct, vec_must_be_empty, vec_with_capacity, FILL_VALUE};
