use sort_search::{bubble_sort, insert_in_order, insertion_sort, selection_sort, sort};

fn is_sorted(s: &[i64]) -> bool {
    s.windows(2).all(|w| w[0] <= w[1])
}

fn same_multiset(a: &[i64], b: &[i64]) -> bool {
    let mut x = a.to_vec();
    let mut y = b.to_vec();
    x.sort();
    y.sort();
    x == y
}

#[test]
fn test() {
    let mut v = vec![6, 5, 4, 3, 2, 1];
    bubble_sort(&mut v);
    println!("{v:?}");
    assert_eq!(v, vec![1, 2, 3, 4, 5, 6]);
}

#[test]
fn selection_sort_empty() {
    let mut v: Vec<i64> = vec![];
    selection_sort(&mut v);
    assert!(v.is_empty());
}

#[test]
fn selection_sort_single() {
    let mut v = vec![42];
    selection_sort(&mut v);
    assert_eq!(v, vec![42]);
}

#[test]
fn insertion_sort_descending_ten() {
    let mut arr = [10, 9, 8, 7, 6, 5, 4, 3, 2, 1];
    insertion_sort(&mut arr);
    assert_eq!(arr, [1, 2, 3, 4, 5, 6, 7, 8, 9, 10]);
}

#[test]
fn insert_in_order_middle() {
    let mut v = vec![1, 3, 5];
    insert_in_order(&mut v, 4);
    assert_eq!(v, vec![1, 3, 4, 5]);
}

#[test]
fn insert_in_order_into_empty() {
    let mut v: Vec<i64> = vec![];
    insert_in_order(&mut v, 7);
    assert_eq!(v, vec![7]);
}

#[test]
fn insert_in_order_at_ends() {
    let mut v = vec![2, 4];
    insert_in_order(&mut v, 9);
    assert_eq!(v, vec![2, 4, 9]);
    insert_in_order(&mut v, -3);
    assert_eq!(v, vec![-3, 2, 4, 9]);
}

#[test]
fn insert_in_order_after_equal_elements() {
    let mut v = vec![1, 2, 2, 3];
    insert_in_order(&mut v, 2);
    assert_eq!(v, vec![1, 2, 2, 2, 3]);
    assert!(is_sorted(&v));
    assert!(same_multiset(&v, &[1, 2, 2, 3, 2]));
}

#[test]
fn sorts_give_sorted_permutations() {
    let inputs: Vec<Vec<i64>> = vec![
        vec![],
        vec![0],
        vec![3, 1, 2],
        vec![5, -1, 5, 0, -1, 7, 7, 2],
        vec![i64::MAX, i64::MIN, 0, i64::MAX, -4],
        vec![9, 8, 7, 6, 5, 4, 3, 2, 1, 0, -1],
    ];
    for input in inputs {
        let mut expected = input.clone();
        expected.sort();

        let mut a = input.clone();
        bubble_sort(&mut a);
        let mut b = input.clone();
        selection_sort(&mut b);
        let mut c = input.clone();
        insertion_sort(&mut c);
        let mut d = input.clone();
        sort(&mut d);

        for out in [&a, &b, &c, &d] {
            assert_eq!(out.len(), input.len());
            assert!(is_sorted(out));
            assert!(same_multiset(out, &input));
            assert_eq!(*out, expected);
        }
    }
}

#[test]
fn sorting_sorted_input_changes_nothing() {
    let input = vec![-2, 0, 0, 3, 8, 8, 11];
    let mut a = input.clone();
    bubble_sort(&mut a);
    assert_eq!(a, input);
    let mut b = input.clone();
    selection_sort(&mut b);
    assert_eq!(b, input);
    let mut c = input.clone();
    insertion_sort(&mut c);
    assert_eq!(c, input);
    let mut d = input.clone();
    sort(&mut d);
    assert_eq!(d, input);
}

#[test]
fn all_equal_elements() {
    let mut v = vec![4, 4, 4, 4];
    bubble_sort(&mut v);
    assert_eq!(v, vec![4, 4, 4, 4]);
    insertion_sort(&mut v);
    assert_eq!(v, vec![4, 4, 4, 4]);
}
