use isbn_kit::collections::unique;

#[test]
fn unique_even_list() {
    let input = vec![1, 5, 2, 7, 9, 9];
    let expected_output = vec![1, 2, 5, 7, 9];
    let actual_output = unique(input);
    assert_eq!(actual_output, expected_output);
}

#[test]
fn unique_sorts_and_dedups() {
    assert_eq!(unique(vec![1, 6, 2, 5]), vec![1, 2, 5, 6]);
    assert_eq!(unique(vec![3, -1, 3, -1, 0]), vec![-1, 0, 3]);
}

#[test]
fn unique_of_empty_is_empty() {
    assert_eq!(unique(vec![]), Vec::<i32>::new());
}

#[test]
fn unique_of_equal_values_is_one_value() {
    assert_eq!(unique(vec![4, 4, 4]), vec![4]);
    assert_eq!(unique(vec![i32::MAX, i32::MIN, i32::MAX]), vec![i32::MIN, i32::MAX]);
}
