use calculator::search::search;

#[test]
fn search_with_isize() {
    let some: [isize; 7] = [-2, -1, 3, 6, 7, 8, 9];
    assert_eq!(2, search(3, &some).unwrap());
}

#[test]
fn search_with_i64() {
    let some: [i64; 10] = [-10, -9, -3, 3, 4, 5, 6, 9, 10, 11];
    assert_eq!(8, search(10, &some).unwrap());
}

#[test]
fn binary_search_not_find() {
    let some: [i64; 10] = [-10, -9, -3, 3, 4, 5, 6, 9, 10, 11];
    assert_eq!(None, search(1, &some));
}

#[test]
fn binary_search_at_start() {
    let some: [i64; 10] = [-10, -9, -3, 3, 4, 5, 6, 9, 10, 11];
    assert_eq!(0, search(-10, &some).unwrap());
}

#[test]
fn binary_search_at_end() {
    let some: [i64; 10] = [-10, -9, -3, 3, 4, 5, 6, 9, 10, 11];
    assert_eq!(9, search(11, &some).unwrap());
}

#[test]
fn for_isize() {
    let some: [isize; 7] = [-2, -1, 3, 6, 7, 8, 9];
    assert_eq!(2, search(3, &some).unwrap());
}

#[test]
fn for_i64() {
    let some: [i64; 10] = [-10, -9, -3, 3, 4, 5, 6, 9, 10, 11];
    assert_eq!(8, search(10, &some).unwrap());
}

#[test]
fn binary_search_test_not_find() {
    let some: [i64; 10] = [-10, -9, -3, 3, 4, 5, 6, 9, 10, 11];
    assert_eq!(None, search(1, &some));
}

#[test]
fn binary_search_test_at_start() {
    let some: [i64; 10] = [-10, -9, -3, 3, 4, 5, 6, 9, 10, 11];
    assert_eq!(0, search(-10, &some).unwrap());
}

#[test]
fn binary_search_test_at_end() {
    let some: [i64; 10] = [-10, -9, -3, 3, 4, 5, 6, 9, 10, 11];
    assert_eq!(9, search(11, &some).unwrap());
}

#[test]
fn search_below_all_and_empty() {
    let some: [i64; 3] = [5, 6, 7];
    assert_eq!(None, search(1, &some));
    let none: [i64; 0] = [];
    assert_eq!(None, search(1, &none));
}
