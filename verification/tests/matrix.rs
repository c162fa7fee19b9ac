use nodewise::matrix::copy_of;
use nodewise::{Matrix, UtilsError};

#[test]
fn from_rows_accepts_rectangular_rows() {
    let m = Matrix::from_rows(vec![vec![1.0, 2.0], vec![3.0, 4.0], vec![5.0, 6.0]], 2).unwrap();
    assert_eq!(m.nrows(), 3);
    assert_eq!(m.ncols(), 2);
    assert_eq!(m.get(0, 0), Some(1.0));
    assert_eq!(m.get(2, 1), Some(6.0));
    assert_eq!(m.entry(1, 0), 3.0);
}

#[test]
fn from_rows_rejects_ragged_rows() {
    let ragged = Matrix::from_rows(vec![vec![1.0, 2.0], vec![3.0]], 2);
    assert_eq!(ragged, Err(UtilsError::DimensionMismatch));
    let wrong_width = Matrix::from_rows(vec![vec![1.0, 2.0], vec![3.0, 4.0]], 3);
    assert_eq!(wrong_width, Err(UtilsError::DimensionMismatch));
}

#[test]
fn from_rows_without_rows_keeps_the_width() {
    let m: Matrix<f64> = Matrix::from_rows(Vec::new(), 4).unwrap();
    assert_eq!(m.nrows(), 0);
    assert_eq!(m.ncols(), 4);
    assert_eq!(m.get(0, 0), None);
}

#[test]
fn get_outside_the_matrix_is_none() {
    let m = Matrix::from_rows(vec![vec![1u32, 2], vec![3, 4]], 2).unwrap();
    assert_eq!(m.get(2, 0), None);
    assert_eq!(m.get(0, 2), None);
    assert_eq!(m.get(1, 1), Some(4));
}

#[test]
fn put_changes_one_entry() {
    let mut m = Matrix::from_rows(vec![vec![1.0, 2.0], vec![3.0, 4.0]], 2).unwrap();
    m.put(1, 0, -3.0);
    let expected = Matrix::from_rows(vec![vec![1.0, 2.0], vec![-3.0, 4.0]], 2).unwrap();
    assert_eq!(m, expected);
}

#[test]
fn clone_is_equal_and_independent() {
    let m = Matrix::from_rows(vec![vec![1.0, 2.0], vec![3.0, 4.0]], 2).unwrap();
    let mut copy = m.clone();
    assert_eq!(copy, m);
    copy.put(0, 0, 9.0);
    assert_eq!(m.get(0, 0), Some(1.0));
    assert_eq!(copy.get(0, 0), Some(9.0));
}

#[test]
fn rows_come_out_as_they_went_in() {
    let rows = vec![vec![1.0, 2.0], vec![3.0, 4.0]];
    let m = Matrix::from_rows(rows.clone(), 2).unwrap();
    assert_eq!(m.row(1), vec![3.0, 4.0]);
    assert_eq!(m.into_rows(), rows);
}

#[test]
fn copy_of_copies() {
    assert_eq!(copy_of(&vec![1.0, 2.5, -3.0]), vec![1.0, 2.5, -3.0]);
    assert_eq!(copy_of(&Vec::<f64>::new()), Vec::<f64>::new());
}

#[test]
fn error_messages() {
    assert_eq!(UtilsError::IndexOutOfRange.message(), "index out of range");
    assert_eq!(UtilsError::DimensionMismatch.message(), "dimension mismatch");
    assert_eq!(UtilsError::DecompositionFailure.message(), "singular value decomposition failed");
    assert_eq!(UtilsError::InvalidCriterion.message(), "invalid information criterion");
    assert_eq!(UtilsError::DegenerateInput.message(), "degenerate input");
}
