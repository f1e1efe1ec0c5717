use xan::sequences::{range, slice_bounds, slice_str};

#[test]
fn test_slice() {
    assert_eq!(slice_str("abcde", 2, None), "cde");
    assert_eq!(slice_str("abcde", -2, None), "de");
    assert_eq!(slice_str("abcde", -1, Some(3)), "");
    assert_eq!(slice_str("abcde", -1, Some(-3)), "");
    assert_eq!(slice_str("abcde", 1, Some(3)), "bc");
    assert_eq!(slice_str("abcde", 1, Some(-2)), "bc");
    assert_eq!(slice_str("abcde", 5, None), "");
    assert_eq!(slice_str("abcde", 10, None), "");
    assert_eq!(slice_str("abcde", -10, None), "abcde");
    assert_eq!(slice_str("abcde", 10, Some(-20)), "");
    assert_eq!(slice_str("abcde", 3, Some(1)), "de");
    assert_eq!(slice_str("été", 1, None), "té");
}

#[test]
fn slice_lists_like_the_language() {
    assert_eq!(slice_bounds(5, 2, None), (0, 2));
    assert_eq!(slice_bounds(5, -2, None), (0, 3));
    assert_eq!(slice_bounds(5, 7, None), (0, 0));
    assert_eq!(slice_bounds(5, 1, Some(3)), (1, 3));
    assert_eq!(slice_bounds(5, 1, Some(-1)), (1, 4));
    assert_eq!(slice_bounds(5, -3, Some(10)), (2, 5));
    assert_eq!(slice_bounds(5, 3, Some(2)), (0, 0));
    assert_eq!(slice_bounds(5, 5, Some(6)), (0, 0));
}

#[test]
fn ranges_step_towards_their_end() {
    assert_eq!(range(0, 5, 1), Ok(vec![0, 1, 2, 3, 4]));
    assert_eq!(range(0, 10, 3), Ok(vec![0, 3, 6, 9]));
    assert_eq!(range(5, 0, -2), Ok(vec![5, 3, 1]));
    assert_eq!(range(5, 5, 1), Ok(vec![]));
    assert_eq!(range(5, 0, 1), Ok(vec![]));
    assert_eq!(range(0, 3, 0), Err("step cannot be 0".to_string()));
}
