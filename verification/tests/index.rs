//! Indexing an upper triangle collection, diagonal included, through the
//! container interface and the base index arithmetic.

use triangle_matrix::upper::base::{
    get_col_indices, get_col_start_index, get_element_index, get_row_indices,
    get_row_start_index,
};
use triangle_matrix::{TriVec, Triangle, TriangleMut};

#[test]
fn index_test_get_element_index() {
    let n = 4;

    assert_eq!(get_element_index(0, 0, n), 0);
    assert_eq!(get_element_index(0, 1, n), 1);
    assert_eq!(get_element_index(0, 2, n), 2);
    assert_eq!(get_element_index(0, 3, n), 3);
    assert_eq!(get_element_index(1, 0, n), 4);
    assert_eq!(get_element_index(1, 1, n), 5);
    assert_eq!(get_element_index(1, 2, n), 6);
    assert_eq!(get_element_index(2, 0, n), 7);
    assert_eq!(get_element_index(2, 1, n), 8);
    assert_eq!(get_element_index(3, 0, n), 9);
}

#[test]
fn index_test_get_element() {
    let v = vec![0, 1, 2, 3, 4, 5, 6, 7, 8, 9];
    let n = 4;
    let m = TriVec::new(n, v);

    assert_eq!(*m.get(get_element_index(0, 0, n)), 0);
    assert_eq!(*m.get(get_element_index(0, 1, n)), 1);
    assert_eq!(*m.get(get_element_index(0, 2, n)), 2);
    assert_eq!(*m.get(get_element_index(0, 3, n)), 3);
    assert_eq!(*m.get(get_element_index(1, 0, n)), 4);
    assert_eq!(*m.get(get_element_index(1, 1, n)), 5);
    assert_eq!(*m.get(get_element_index(1, 2, n)), 6);
    assert_eq!(*m.get(get_element_index(2, 0, n)), 7);
    assert_eq!(*m.get(get_element_index(2, 1, n)), 8);
    assert_eq!(*m.get(get_element_index(3, 0, n)), 9);
}

#[test]
fn index_test_get_element_mut() {
    let v = vec![0, 1, 2, 3, 4, 5, 6, 7, 8, 9];
    let n = 4;
    let mut m = TriVec::new(n, v);
    *m.get_mut(get_element_index(1, 1, n)) = 10;

    assert_eq!(*m.get(get_element_index(1, 1, n)), 10);
}

#[test]
fn index_test_get_row_start() {
    let n = 4;

    assert_eq!(get_row_start_index(0, n), 0);
    assert_eq!(get_row_start_index(1, n), 4);
    assert_eq!(get_row_start_index(2, n), 7);
    assert_eq!(get_row_start_index(3, n), 9);
}

#[test]
fn index_test_get_col_start() {
    assert_eq!(get_col_start_index(0), 0);
    assert_eq!(get_col_start_index(1), 1);
    assert_eq!(get_col_start_index(2), 2);
    assert_eq!(get_col_start_index(3), 3);
}

#[test]
fn index_test_get_row_indices() {
    let n = 4;

    assert_eq!(get_row_indices(0, n), [0, 1, 2, 3]);
    assert_eq!(get_row_indices(1, n), [4, 5, 6]);
    assert_eq!(get_row_indices(2, n), [7, 8]);
    assert_eq!(get_row_indices(3, n), [9]);
}

#[test]
fn index_test_get_col_indices() {
    let n = 4;

    assert_eq!(get_col_indices(0, n), [0]);
    assert_eq!(get_col_indices(1, n), [1, 4]);
    assert_eq!(get_col_indices(2, n), [2, 5, 7]);
    assert_eq!(get_col_indices(3, n), [3, 6, 8, 9]);
}
