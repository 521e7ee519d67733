use common_numbers::comparators::{hashset, sorted_array, unsorted_array};
use common_numbers::inputs::{ascending, input_sequences, A_LEN, B_LEN};
use std::time::Duration;

fn all_three(a: &Vec<u32>, b: &Vec<u32>) -> (usize, usize, usize) {
    let nested = unsorted_array(a, b).0;
    let hashed = hashset(a, b).0;
    let mut sa = a.clone();
    let mut sb = b.clone();
    let merged = sorted_array(&mut sa, &mut sb).0;
    (nested, hashed, merged)
}

#[test]
fn inputs_are_ascending_runs() {
    let (a, b) = input_sequences();
    assert_eq!(a.len(), 131072);
    assert_eq!(b.len(), 65536);
    assert_eq!(A_LEN, 1 << 17);
    assert_eq!(B_LEN, 1 << 16);
    assert!(a.iter().enumerate().all(|(i, v)| *v as usize == i));
    assert!(b.iter().enumerate().all(|(i, v)| *v as usize == i));
}

#[test]
fn ascending_of_zero_is_empty() {
    assert!(ascending(0).is_empty());
    assert_eq!(ascending(4), vec![0, 1, 2, 3]);
}

#[test]
fn full_inputs_hashset_counts_shorter_run() {
    let (a, b) = input_sequences();
    assert_eq!(hashset(&a, &b).0, 65536);
}

#[test]
fn full_inputs_sorted_array_counts_shorter_run() {
    let (a, b) = input_sequences();
    let mut a = a.clone();
    let mut b = b.clone();
    assert_eq!(sorted_array(&mut a, &mut b).0, 65536);
}

#[test]
fn smaller_runs_all_count_shorter_run() {
    let a = ascending(2048);
    let b = ascending(1024);
    assert_eq!(all_three(&a, &b), (1024, 1024, 1024));
}

#[test]
fn both_empty_gives_zero() {
    assert_eq!(all_three(&vec![], &vec![]), (0, 0, 0));
}

#[test]
fn one_side_empty_gives_zero() {
    assert_eq!(all_three(&vec![1, 2, 3], &vec![]), (0, 0, 0));
    assert_eq!(all_three(&vec![], &vec![1, 2, 3]), (0, 0, 0));
}

#[test]
fn disjoint_gives_zero() {
    assert_eq!(all_three(&vec![1, 2, 3], &vec![4, 5, 6]), (0, 0, 0));
}

#[test]
fn partial_overlap_gives_two() {
    assert_eq!(all_three(&vec![1, 2, 3], &vec![2, 3, 4]), (2, 2, 2));
}

#[test]
fn single_equal_values_give_one() {
    assert_eq!(all_three(&vec![5], &vec![5]), (1, 1, 1));
}

#[test]
fn unordered_distinct_inputs_agree() {
    let a = vec![9, 3, 7, 1, 4000000000, 12];
    let b = vec![12, 8, 4000000000, 3, 2];
    assert_eq!(all_three(&a, &b), (3, 3, 3));
}

#[test]
fn duplicates_separate_the_three_counts() {
    let a = vec![1, 1, 2];
    let b = vec![1, 1, 1];
    // pairs: 2 * 3; distinct shared values: 1; paired one to one: 2
    assert_eq!(all_three(&a, &b), (6, 1, 2));
}

#[test]
fn duplicates_on_both_sides_pair_up() {
    let a = vec![4, 2, 4, 2, 4];
    let b = vec![4, 4, 2, 7];
    assert_eq!(all_three(&a, &b), (8, 2, 3));
}

#[test]
fn repeated_runs_give_same_count() {
    let a_orig = vec![3, 1, 4, 1, 5, 9, 2, 6];
    let b_orig = vec![2, 7, 1, 8, 2, 8];
    let first = hashset(&a_orig.clone(), &b_orig.clone()).0;
    let second = hashset(&a_orig.clone(), &b_orig.clone()).0;
    assert_eq!(first, second);
    assert_eq!(first, 2);
    let first = unsorted_array(&a_orig.clone(), &b_orig.clone()).0;
    let second = unsorted_array(&a_orig.clone(), &b_orig.clone()).0;
    assert_eq!(first, second);
    assert_eq!(first, 4);
}

#[test]
fn sorted_array_leaves_retained_originals_alone() {
    let a_orig = vec![5, 3, 9, 1];
    let b_orig = vec![9, 2, 5];
    let mut a = a_orig.clone();
    let mut b = b_orig.clone();
    assert_eq!(sorted_array(&mut a, &mut b).0, 2);
    assert_eq!(a_orig, vec![5, 3, 9, 1]);
    assert_eq!(b_orig, vec![9, 2, 5]);
    assert_eq!(a, vec![1, 3, 5, 9]);
    assert_eq!(b, vec![2, 5, 9]);
}

#[test]
fn sorted_array_sorts_its_own_copies() {
    let mut a = vec![u32::MAX, 0, 7, 7];
    let mut b = vec![7, u32::MAX];
    assert_eq!(sorted_array(&mut a, &mut b).0, 2);
    assert_eq!(a, vec![0, 7, 7, u32::MAX]);
    assert_eq!(b, vec![7, u32::MAX]);
}

#[test]
fn elapsed_times_are_non_negative() {
    let a = ascending(256);
    let b = ascending(128);
    assert!(unsorted_array(&a, &b).1 >= Duration::ZERO);
    assert!(hashset(&a, &b).1 >= Duration::ZERO);
    let mut sa = a.clone();
    let mut sb = b.clone();
    assert!(sorted_array(&mut sa, &mut sb).1 >= Duration::ZERO);
}

#[test]
fn nested_scan_is_slowest_on_large_runs() {
    let a = ascending(1 << 13);
    let b = ascending(1 << 12);
    let nested = unsorted_array(&a, &b);
    let hashed = hashset(&a, &b);
    let mut sa = a.clone();
    let mut sb = b.clone();
    let merged = sorted_array(&mut sa, &mut sb);
    assert_eq!((nested.0, hashed.0, merged.0), (4096, 4096, 4096));
    assert!(nested.1 > hashed.1);
    assert!(nested.1 > merged.1);
}
