use calculator::sorting::{insertion_sort, merge_sort, quick_sort, selection_sort};
use rand::seq::SliceRandom;
use rand::thread_rng;

#[test]
fn insertion_empty() {
    let mut array = Vec::<char>::new();
    insertion_sort(&mut array);
    assert_eq!(array, vec![]);
}

#[test]
fn insertion_one() {
    let mut array = vec![1];
    insertion_sort(&mut array);
    assert_eq!(array, vec![1]);
}

#[test]
fn insertion_double() {
    let mut array = vec![4.5, 1.2, 3.4, 5.6];
    insertion_sort(&mut array);
    assert_eq!(array, vec![1.2, 3.4, 4.5, 5.6]);
}

#[test]
fn insertion_normal() {
    let mut array = vec![4.5, 1.2, 3.4, 5.6];
    insertion_sort(&mut array);
    assert_eq!(array, vec![1.2, 3.4, 4.5, 5.6]);
}

#[test]
fn insertion_integer() {
    let mut array = vec![1, 4, 5, 9, 2, 6];
    insertion_sort(&mut array);
    assert_eq!(array, vec![1, 2, 4, 5, 6, 9]);
}

#[test]
fn insertion_range() {
    let mut array: Vec<u32> = (0..1000).rev().collect();
    insertion_sort(&mut array);
    assert_eq!(array, (0..1000).collect::<Vec<u32>>());
}

#[test]
fn insertion_equal_keys() {
    let mut array = vec![3, 1, 3, 1, 2, 2];
    insertion_sort(&mut array);
    assert_eq!(array, vec![1, 1, 2, 2, 3, 3]);
}

#[test]
fn selection_empty() {
    let mut array = Vec::<char>::new();
    selection_sort(&mut array);
    assert_eq!(array, vec![]);
}

#[test]
fn selection_one() {
    let mut array = vec![1];
    selection_sort(&mut array);
    assert_eq!(array, vec![1]);
}

#[test]
fn selection_double() {
    let mut array = vec![4.5, 1.2, 3.4, 5.6];
    selection_sort(&mut array);
    assert_eq!(array, vec![1.2, 3.4, 4.5, 5.6]);
}

#[test]
fn selection_normal() {
    let mut array = vec![4.5, 1.2, 3.4, 5.6];
    selection_sort(&mut array);
    assert_eq!(array, vec![1.2, 3.4, 4.5, 5.6]);
}

#[test]
fn selection_integer() {
    let mut array = vec![1, 4, 5, 9, 2, 6];
    selection_sort(&mut array);
    assert_eq!(array, vec![1, 2, 4, 5, 6, 9]);
}

#[test]
fn selection_range() {
    let mut array: Vec<u32> = (0..1000).rev().collect();
    selection_sort(&mut array);
    assert_eq!(array, (0..1000).collect::<Vec<u32>>());
}

#[test]
fn selection_equal_keys() {
    let mut array = vec!['c', 'a', 'c', 'b', 'a'];
    selection_sort(&mut array);
    assert_eq!(array, vec!['a', 'a', 'b', 'c', 'c']);
}

#[test]
fn merge_empty() {
    let mut array = Vec::<char>::new();
    merge_sort(&mut array);
    assert_eq!(array, vec![]);
}

#[test]
fn merge_one() {
    let mut array = vec![1];
    merge_sort(&mut array);
    assert_eq!(array, vec![1]);
}

#[test]
fn merge_double() {
    let mut array = vec![4.5, 1.2, 3.4, 5.6];
    merge_sort(&mut array);
    assert_eq!(array, vec![1.2, 3.4, 4.5, 5.6]);
}

#[test]
fn merge_integer() {
    let mut array = vec![1, 4, 5, 9, 2, 6];
    merge_sort(&mut array);
    assert_eq!(array, vec![1, 2, 4, 5, 6, 9]);
}

#[test]
fn merge_range() {
    let mut array: Vec<u32> = (0..1000).rev().collect();
    merge_sort(&mut array);
    assert_eq!(array, (0..1000).collect::<Vec<u32>>());
}

#[test]
fn merge_random() {
    let mut rng = thread_rng();
    let mut random_vec: Vec<u32> = (1..100).collect();
    random_vec.shuffle(&mut rng);
    let mut random_vec_copy = random_vec.clone();
    merge_sort(&mut random_vec);
    random_vec_copy.sort();
    assert_eq!(random_vec, random_vec_copy);
}

#[test]
fn quick_random() {
    let mut rng = thread_rng();
    let mut random_vec: Vec<u32> = (1..100).collect();
    random_vec.shuffle(&mut rng);
    let mut random_vec_copy = random_vec.clone();
    quick_sort(&mut random_vec);
    random_vec_copy.sort();
    assert_eq!(random_vec, random_vec_copy);
}

#[test]
fn quick_edge_cases() {
    let mut empty = Vec::<i32>::new();
    quick_sort(&mut empty);
    assert_eq!(empty, vec![]);
    let mut sorted = vec![1, 2, 3, 4];
    quick_sort(&mut sorted);
    assert_eq!(sorted, vec![1, 2, 3, 4]);
    let mut dup = vec![2, 2, 1, 1, 3, 1];
    quick_sort(&mut dup);
    assert_eq!(dup, vec![1, 1, 1, 2, 2, 3]);
    let mut fl = vec![4.5, 1.2, 3.4, 5.6];
    quick_sort(&mut fl);
    assert_eq!(fl, vec![1.2, 3.4, 4.5, 5.6]);
}
