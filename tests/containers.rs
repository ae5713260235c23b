use sort_search::{
    pop_to_zero_correct, selection_sort_vec_wrapper, vec_must_be_empty, vec_with_capacity,
    VecWrapper, FILL_VALUE,
};

#[test]
fn wrapper_sort_descending() {
    let mut arr = VecWrapper::new();
    arr.push(9i64);
    arr.push(8);
    arr.push(7);
    arr.push(6);
    arr.push(5);
    selection_sort_vec_wrapper(&mut arr);
    assert_eq!(arr.len(), 5);
    let got: Vec<i64> = (0..arr.len()).map(|i| *arr.get(i)).collect();
    assert_eq!(got, vec![5, 6, 7, 8, 9]);
}

#[test]
fn wrapper_accessors() {
    let mut arr = VecWrapper::new();
    assert_eq!(arr.len(), 0);
    arr.push(3i64);
    arr.push(-1);
    assert_eq!(arr.len(), 2);
    assert_eq!(*arr.get(0), 3);
    assert!(!arr.le(0, 1));
    assert!(arr.le(1, 0));
    assert!(arr.le(1, 1));
    *arr.get_mut(1) = 10;
    assert_eq!(*arr.get(1), 10);
    assert_eq!(*arr.get(0), 3);
    assert!(arr.le(0, 1));
}

#[test]
fn wrapper_sort_empty_and_single() {
    let mut arr: VecWrapper<i64> = VecWrapper::new();
    selection_sort_vec_wrapper(&mut arr);
    assert_eq!(arr.len(), 0);
    arr.push(4);
    selection_sort_vec_wrapper(&mut arr);
    assert_eq!(*arr.get(0), 4);
}

#[test]
fn empty_vector() {
    let v: Vec<u8> = vec_must_be_empty();
    assert!(v.is_empty());
}

#[test]
fn drain_reverses() {
    let mut v = vec![1, 2, 3, 4];
    let r = pop_to_zero_correct(&mut v);
    assert!(v.is_empty());
    assert_eq!(r, vec![4, 3, 2, 1]);
    let mut e: Vec<i32> = vec![];
    assert!(pop_to_zero_correct(&mut e).is_empty());
}

#[test]
fn filled_vector() {
    assert_eq!(vec_with_capacity(0), Vec::<i64>::new());
    let v = vec_with_capacity(4);
    assert_eq!(v, vec![FILL_VALUE; 4]);
    assert_eq!(FILL_VALUE, 123);
}
