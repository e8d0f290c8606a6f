use collections_practice::stats::{exercise1, SummaryError};

#[test]
fn reference_list_median_and_mode() {
    // sorted: [1, 2, 3, 3, 3, 4, 5, 6, 7, 7, 8, 9]; the middle pair is 4 and 5
    let r = exercise1(vec![3, 4, 1, 7, 9, 3, 2, 7, 5, 3, 8, 6]);
    assert_eq!(r, Ok((4, 3)));
}

#[test]
fn reference_list_median_is_not_the_shifted_pair() {
    // averaging the elements one place further on (5 and 6) would give 5
    let (median, _) = exercise1(vec![3, 4, 1, 7, 9, 3, 2, 7, 5, 3, 8, 6]).unwrap();
    assert_ne!(median, 5);
}

#[test]
fn single_element() {
    assert_eq!(exercise1(vec![7]), Ok((7, 7)));
}

#[test]
fn empty_list_is_an_error() {
    assert_eq!(exercise1(vec![]), Err(SummaryError::EmptyInput));
}

#[test]
fn two_elements_average_toward_zero() {
    assert_eq!(exercise1(vec![2, 1]), Ok((1, 1)));
    assert_eq!(exercise1(vec![-3, -2]), Ok((-2, -3)));
}

#[test]
fn odd_length_takes_the_middle() {
    assert_eq!(exercise1(vec![9, 1, 5]), Ok((5, 1)));
}

#[test]
fn mode_tie_goes_to_smallest_value() {
    assert_eq!(exercise1(vec![2, 2, 1, 1]), Ok((1, 1)));
    assert_eq!(exercise1(vec![5, 9, 9, 5, 7]), Ok((7, 5)));
}

#[test]
fn mode_is_a_value_not_a_count() {
    assert_eq!(exercise1(vec![10, 10, 20]), Ok((10, 10)));
}

#[test]
fn extreme_values_do_not_overflow() {
    assert_eq!(exercise1(vec![i32::MAX, i32::MAX]), Ok((i32::MAX, i32::MAX)));
    assert_eq!(exercise1(vec![i32::MIN, i32::MIN]), Ok((i32::MIN, i32::MIN)));
    assert_eq!(exercise1(vec![i32::MIN, i32::MAX]), Ok((0, i32::MIN)));
}

#[test]
fn order_of_input_does_not_matter() {
    let a = exercise1(vec![3, 4, 1, 7, 9, 3, 2, 7, 5, 3, 8, 6]);
    let b = exercise1(vec![9, 8, 7, 7, 6, 5, 4, 3, 3, 3, 2, 1]);
    let c = exercise1(vec![1, 2, 3, 3, 3, 4, 5, 6, 7, 7, 8, 9]);
    assert_eq!(a, b);
    assert_eq!(a, c);
}
