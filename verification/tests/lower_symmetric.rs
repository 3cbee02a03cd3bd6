use triangle_matrix::{SymmetricLowerTri, SymmetricLowerTriMut, TriVec};

fn packed() -> TriVec<usize> {
    let v = vec![0, 1, 2, 3, 4, 5, 6, 7, 8, 9];
    TriVec::new(5, v)
}

#[test]
fn sym_lower_get_element() {
    let m = packed();

    assert_eq!(*m.get_element(1, 0), 0);
    assert_eq!(*m.get_element(0, 1), 0);
    assert_eq!(*m.get_element(0, 3), 3);
    assert_eq!(*m.get_element(3, 0), 3);
    assert_eq!(*m.get_element(3, 1), 4);
    assert_eq!(*m.get_element(1, 3), 4);
    assert_eq!(*m.get_element(3, 2), 5);
    assert_eq!(*m.get_element(2, 3), 5);
    assert_eq!(*m.get_element(4, 3), 9);
    assert_eq!(*m.get_element(3, 4), 9);
}

#[test]
fn sym_lower_get_element_mut() {
    let mut m = packed();
    *m.get_element_mut(3, 1) = 10;
    *m.get_element_mut(2, 3) = 11;

    assert_eq!(*m.get_element(1, 3), 10);
    assert_eq!(*m.get_element(3, 2), 11);
}

#[test]
fn sym_lower_get_row_indices() {
    let m = packed();

    assert_eq!(m.get_row_indices(0), [0, 1, 3, 6]);
    assert_eq!(m.get_row_indices(1), [0, 2, 4, 7]);
    assert_eq!(m.get_row_indices(2), [1, 2, 5, 8]);
    assert_eq!(m.get_row_indices(3), [3, 4, 5, 9]);
    assert_eq!(m.get_row_indices(4), [6, 7, 8, 9]);
}

#[test]
fn sym_lower_get_col_indices() {
    let m = packed();

    assert_eq!(m.get_col_indices(0), [0, 1, 3, 6]);
    assert_eq!(m.get_col_indices(1), [0, 2, 4, 7]);
    assert_eq!(m.get_col_indices(2), [1, 2, 5, 8]);
    assert_eq!(m.get_col_indices(3), [3, 4, 5, 9]);
    assert_eq!(m.get_col_indices(4), [6, 7, 8, 9]);
}

#[test]
fn sym_lower_get_row_and_col() {
    let m = packed();

    let row = |i: usize| m.get_row(i).into_iter().cloned().collect::<Vec<_>>();
    assert_eq!(row(0), [0, 1, 3, 6]);
    assert_eq!(row(1), [0, 2, 4, 7]);
    assert_eq!(row(2), [1, 2, 5, 8]);
    assert_eq!(row(3), [3, 4, 5, 9]);
    assert_eq!(row(4), [6, 7, 8, 9]);

    let col = |j: usize| m.get_col(j).into_iter().cloned().collect::<Vec<_>>();
    assert_eq!(col(0), [0, 1, 3, 6]);
    assert_eq!(col(2), [1, 2, 5, 8]);
    assert_eq!(col(4), [6, 7, 8, 9]);
}

#[test]
fn sym_lower_single_axis_has_empty_rows() {
    let m: TriVec<usize> = TriVec::new(1, Vec::new());

    assert!(m.get_row_indices(0).is_empty());
    assert!(m.get_col_indices(0).is_empty());
}
