use triangle_matrix::{SimpleUpperTri, SimpleUpperTriMut, TriVec};

fn packed() -> TriVec<usize> {
    let v = vec![0, 1, 2, 3, 4, 5, 6, 7, 8, 9];
    TriVec::new(5, v)
}

#[test]
fn simple_test_get_element() {
    let m = packed();

    assert_eq!(*m.get_element(0, 1), 0);
    assert_eq!(*m.get_element(0, 2), 1);
    assert_eq!(*m.get_element(0, 3), 2);
    assert_eq!(*m.get_element(0, 4), 3);

    assert_eq!(*m.get_element(1, 2), 4);
    assert_eq!(*m.get_element(1, 3), 5);
    assert_eq!(*m.get_element(1, 4), 6);

    assert_eq!(*m.get_element(2, 3), 7);
    assert_eq!(*m.get_element(2, 4), 8);

    assert_eq!(*m.get_element(3, 4), 9);
}

#[test]
fn simple_test_get_element_mut() {
    let mut m = packed();
    *m.get_element_mut(1, 2) = 10;
    *m.get_element_mut(1, 3) = 11;

    assert_eq!(*m.get_element(1, 2), 10);
    assert_eq!(*m.get_element(1, 3), 11);
}

#[test]
fn upper_simple_row_and_col_starts() {
    let m = packed();

    assert_eq!(m.get_row_start_index(0), 0);
    assert_eq!(m.get_row_start_index(1), 4);
    assert_eq!(m.get_row_start_index(2), 7);
    assert_eq!(m.get_row_start_index(3), 9);

    assert_eq!(m.get_col_start_index(1), 0);
    assert_eq!(m.get_col_start_index(2), 1);
    assert_eq!(m.get_col_start_index(3), 2);
    assert_eq!(m.get_col_start_index(4), 3);
}

#[test]
fn upper_simple_row_and_col_indices() {
    let m = packed();

    assert_eq!(m.get_row_indices(0), [0, 1, 2, 3]);
    assert_eq!(m.get_row_indices(1), [4, 5, 6]);
    assert_eq!(m.get_row_indices(2), [7, 8]);
    assert_eq!(m.get_row_indices(3), [9]);

    assert_eq!(m.get_col_indices(1), [0]);
    assert_eq!(m.get_col_indices(2), [1, 4]);
    assert_eq!(m.get_col_indices(3), [2, 5, 7]);
    assert_eq!(m.get_col_indices(4), [3, 6, 8, 9]);
}

#[test]
fn simple_test_get_row() {
    let m = packed();

    let row = |i: usize| m.get_row(i).into_iter().cloned().collect::<Vec<_>>();
    assert_eq!(row(0), [0, 1, 2, 3]);
    assert_eq!(row(1), [4, 5, 6]);
    assert_eq!(row(2), [7, 8]);
    assert_eq!(row(3), [9]);
}

#[test]
fn simple_test_get_col() {
    let m = packed();

    let col = |j: usize| m.get_col(j).into_iter().cloned().collect::<Vec<_>>();
    assert_eq!(col(1), [0]);
    assert_eq!(col(2), [1, 4]);
    assert_eq!(col(3), [2, 5, 7]);
    assert_eq!(col(4), [3, 6, 8, 9]);
}

#[test]
fn simple_test_iter_triangle_indices() {
    let m: TriVec<usize> = TriVec::new(5, Vec::new());

    assert_eq!(
        m.iter_triangle_indices(),
        [
            (0, 1),
            (0, 2),
            (0, 3),
            (0, 4),
            (1, 2),
            (1, 3),
            (1, 4),
            (2, 3),
            (2, 4),
            (3, 4),
        ]
    );
}
