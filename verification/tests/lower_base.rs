use triangle_matrix::lower::base::{
    get_col_indices, get_col_start_index, get_element_index, get_row_indices,
    get_row_start_index,
};

#[test]
fn test_get_element_index() {
    assert_eq!(get_element_index(0, 0), 0);
    assert_eq!(get_element_index(1, 0), 1);
    assert_eq!(get_element_index(1, 1), 2);
    assert_eq!(get_element_index(2, 0), 3);
    assert_eq!(get_element_index(2, 1), 4);
    assert_eq!(get_element_index(2, 2), 5);
    assert_eq!(get_element_index(3, 0), 6);
    assert_eq!(get_element_index(3, 1), 7);
    assert_eq!(get_element_index(3, 2), 8);
    assert_eq!(get_element_index(3, 3), 9);
}

#[test]
fn test_get_row_start() {
    assert_eq!(get_row_start_index(0), 0);
    assert_eq!(get_row_start_index(1), 1);
    assert_eq!(get_row_start_index(2), 3);
    assert_eq!(get_row_start_index(3), 6);
}

#[test]
fn test_get_col_start() {
    assert_eq!(get_col_start_index(0), 0);
    assert_eq!(get_col_start_index(1), 2);
    assert_eq!(get_col_start_index(2), 5);
    assert_eq!(get_col_start_index(3), 9);
}

#[test]
fn test_get_row_indices() {
    assert_eq!(get_row_indices(0), [0]);
    assert_eq!(get_row_indices(1), [1, 2]);
    assert_eq!(get_row_indices(2), [3, 4, 5]);
    assert_eq!(get_row_indices(3), [6, 7, 8, 9]);
}

#[test]
fn test_get_col_indices() {
    let n = 4;

    assert_eq!(get_col_indices(0, n), [0, 1, 3, 6]);
    assert_eq!(get_col_indices(1, n), [2, 4, 7]);
    assert_eq!(get_col_indices(2, n), [5, 8]);
    assert_eq!(get_col_indices(3, n), [9]);
}
