use tictactoe::shape_2D;

#[test]
fn test_shape() {
    let v = vec![1, 2, 3, 4, 5, 6, 7, 8, 9];
    let expected = vec![vec![1, 2, 3], vec![4, 5, 6], vec![7, 8, 9]];
    assert_eq!(shape_2D(v, 3), expected);
}

#[test]
fn shape_of_empty_vector_is_empty() {
    let v: Vec<i32> = vec![];
    let expected: Vec<Vec<i32>> = vec![];
    assert_eq!(shape_2D(v, 3), expected);
}

#[test]
fn shape_drops_a_trailing_partial_row() {
    let v = vec![10, 20, 30, 40, 50];
    let expected = vec![vec![10, 20], vec![30, 40]];
    assert_eq!(shape_2D(v, 2), expected);
    let w = vec![7, 8, 9, 10];
    let expected_w: Vec<Vec<i32>> = vec![];
    assert_eq!(shape_2D(w, 5), expected_w);
}

#[test]
fn shape_with_zero_columns_has_no_rows() {
    let v = vec![1, 2, 3];
    let expected: Vec<Vec<i32>> = vec![];
    assert_eq!(shape_2D(v, 0), expected);
}

#[test]
fn shape_with_one_column_keeps_order() {
    let v = vec![4, 5, 6];
    let expected = vec![vec![4], vec![5], vec![6]];
    assert_eq!(shape_2D(v, 1), expected);
}
