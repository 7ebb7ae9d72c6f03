use rust_remover::sorting::{partition, quick_sort};

#[test]
fn partition_keeps_smaller_elements_in_order() {
    let mut v = vec![3, 1, 4, 1, 5, 9, 2, 6];
    let mid = partition(&mut v[..]);
    assert_eq!(mid, 6);
    assert_eq!(&v[..6], &[3, 1, 4, 1, 5, 2]);
    assert_eq!(v[6], 6);
    assert_eq!(&v[7..], &[9]);
}

#[test]
fn partition_with_largest_pivot_moves_nothing() {
    let mut v = vec![2, 7, 1, 9];
    let mid = partition(&mut v[..]);
    assert_eq!(mid, 3);
    assert_eq!(v, vec![2, 7, 1, 9]);
}

#[test]
fn partition_with_smallest_pivot_puts_it_first() {
    let mut v = vec![5, 8, 7, 1];
    let mid = partition(&mut v[..]);
    assert_eq!(mid, 0);
    assert_eq!(v[0], 1);
    let mut rest = v[1..].to_vec();
    rest.sort();
    assert_eq!(rest, vec![5, 7, 8]);
    assert_eq!(v, vec![1, 8, 7, 5]);
}

#[test]
fn partition_rotates_the_larger_elements() {
    let mut v = vec![6, 1, 7, 2, 8, 3, 4];
    let mid = partition(&mut v[..]);
    assert_eq!(mid, 3);
    assert_eq!(v, vec![1, 2, 3, 4, 8, 7, 6]);
}

#[test]
fn partition_of_single_element() {
    let mut v = vec![42u64];
    assert_eq!(partition(&mut v[..]), 0);
    assert_eq!(v, vec![42]);
}

#[test]
fn quick_sort_sorts() {
    let mut v = vec![5, -3, 9, 0, 5, 2, -8, 7, 1, 1];
    quick_sort(&mut v[..]);
    assert_eq!(v, vec![-8, -3, 0, 1, 1, 2, 5, 5, 7, 9]);
}

#[test]
fn quick_sort_edge_cases() {
    let mut empty: Vec<u32> = Vec::new();
    quick_sort(&mut empty[..]);
    assert!(empty.is_empty());
    let mut one = vec![3u8];
    quick_sort(&mut one[..]);
    assert_eq!(one, vec![3]);
    let mut desc: Vec<i64> = (0..200).rev().collect();
    quick_sort(&mut desc[..]);
    assert_eq!(desc, (0..200).collect::<Vec<i64>>());
}

#[test]
fn quick_sort_tuples_lexicographically() {
    let mut v = vec![(2i64, 1u64), (1, 5), (2, 0), (1, 2)];
    quick_sort(&mut v[..]);
    assert_eq!(v, vec![(1, 2), (1, 5), (2, 0), (2, 1)]);
}
