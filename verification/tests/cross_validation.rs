use nodewise::{fold_bounds, split_data, Matrix, UtilsError};

fn data(n: usize) -> Matrix<f64> {
    let mut rows = Vec::new();
    for i in 0..n {
        rows.push(vec![i as f64, 10.0 * i as f64]);
    }
    Matrix::from_rows(rows, 2).unwrap()
}

fn response(n: usize) -> Vec<f64> {
    let mut r = Vec::new();
    for i in 0..n {
        r.push(100.0 + i as f64);
    }
    r
}

fn rows_of(indices: &[usize]) -> Matrix<f64> {
    let mut rows = Vec::new();
    for &i in indices {
        rows.push(vec![i as f64, 10.0 * i as f64]);
    }
    Matrix::from_rows(rows, 2).unwrap()
}

fn responses_of(indices: &[usize]) -> Vec<f64> {
    let mut r = Vec::new();
    for &i in indices {
        r.push(100.0 + i as f64);
    }
    r
}

#[test]
fn fold_bounds_divide_evenly() {
    assert_eq!(fold_bounds(6, 0, 3), Ok((0, 2)));
    assert_eq!(fold_bounds(6, 1, 3), Ok((2, 4)));
    assert_eq!(fold_bounds(6, 2, 3), Ok((4, 6)));
}

#[test]
fn last_fold_takes_the_remainder() {
    assert_eq!(fold_bounds(7, 0, 3), Ok((0, 2)));
    assert_eq!(fold_bounds(7, 1, 3), Ok((2, 4)));
    assert_eq!(fold_bounds(7, 2, 3), Ok((4, 7)));
    assert_eq!(fold_bounds(5, 1, 2), Ok((2, 5)));
}

#[test]
fn one_fold_holds_everything() {
    assert_eq!(fold_bounds(4, 0, 1), Ok((0, 4)));
}

#[test]
fn as_many_folds_as_rows() {
    assert_eq!(fold_bounds(3, 0, 3), Ok((0, 1)));
    assert_eq!(fold_bounds(3, 2, 3), Ok((2, 3)));
}

#[test]
fn fold_bounds_rejects_bad_fold_counts() {
    assert_eq!(fold_bounds(4, 0, 0), Err(UtilsError::DegenerateInput));
    assert_eq!(fold_bounds(4, 0, 5), Err(UtilsError::DegenerateInput));
    assert_eq!(fold_bounds(0, 0, 1), Err(UtilsError::DegenerateInput));
}

#[test]
fn fold_bounds_rejects_a_fold_that_is_none() {
    assert_eq!(fold_bounds(4, 2, 2), Err(UtilsError::IndexOutOfRange));
    assert_eq!(fold_bounds(4, 9, 4), Err(UtilsError::IndexOutOfRange));
}

#[test]
fn fold_bounds_near_the_largest_size() {
    assert_eq!(fold_bounds(usize::MAX, 1, 2), Ok((usize::MAX / 2, usize::MAX)));
    assert_eq!(fold_bounds(usize::MAX, usize::MAX - 1, usize::MAX), Ok((usize::MAX - 1, usize::MAX)));
}

#[test]
fn split_first_fold() {
    let (train, test, train_r, test_r) = split_data(&data(6), &response(6), 0, 3).unwrap();
    assert_eq!(test, rows_of(&[0, 1]));
    assert_eq!(train, rows_of(&[2, 3, 4, 5]));
    assert_eq!(test_r, responses_of(&[0, 1]));
    assert_eq!(train_r, responses_of(&[2, 3, 4, 5]));
}

#[test]
fn split_middle_fold() {
    let (train, test, train_r, test_r) = split_data(&data(6), &response(6), 1, 3).unwrap();
    assert_eq!(test, rows_of(&[2, 3]));
    assert_eq!(train, rows_of(&[0, 1, 4, 5]));
    assert_eq!(test_r, vec![102.0, 103.0]);
    assert_eq!(train_r, vec![100.0, 101.0, 104.0, 105.0]);
}

#[test]
fn split_last_fold_with_remainder() {
    let (train, test, train_r, test_r) = split_data(&data(5), &response(5), 1, 2).unwrap();
    assert_eq!(test, rows_of(&[2, 3, 4]));
    assert_eq!(train, rows_of(&[0, 1]));
    assert_eq!(test_r, responses_of(&[2, 3, 4]));
    assert_eq!(train_r, responses_of(&[0, 1]));
}

#[test]
fn split_with_one_fold_leaves_nothing_to_train_on() {
    let (train, test, train_r, test_r) = split_data(&data(3), &response(3), 0, 1).unwrap();
    assert_eq!(test, data(3));
    assert_eq!(train.nrows(), 0);
    assert_eq!(train.ncols(), 2);
    assert_eq!(test_r, response(3));
    assert_eq!(train_r, Vec::<f64>::new());
}

#[test]
fn folds_cover_every_row_once() {
    let n = 12;
    let folds = 4;
    let mut seen = vec![0usize; n];
    for fold in 0..folds {
        let (train, test, train_r, test_r) = split_data(&data(n), &response(n), fold, folds).unwrap();
        assert_eq!(test.nrows(), 3);
        assert_eq!(train.nrows() + test.nrows(), n);
        assert_eq!(train_r.len() + test_r.len(), n);
        for i in 0..test.nrows() {
            let row = test.get(i, 0).unwrap() as usize;
            seen[row] += 1;
            assert_eq!(test_r[i], 100.0 + row as f64);
        }
        let mut in_train = vec![false; n];
        for i in 0..train.nrows() {
            let row = train.get(i, 0).unwrap() as usize;
            assert!(!in_train[row]);
            in_train[row] = true;
            assert_eq!(train_r[i], 100.0 + row as f64);
        }
        for i in 0..test.nrows() {
            assert!(!in_train[test.get(i, 0).unwrap() as usize]);
        }
    }
    assert_eq!(seen, vec![1usize; n]);
}

#[test]
fn split_rejects_a_response_of_the_wrong_length() {
    assert_eq!(split_data(&data(4), &response(3), 0, 2), Err(UtilsError::DimensionMismatch));
    assert_eq!(split_data(&data(4), &response(5), 0, 0), Err(UtilsError::DimensionMismatch));
}

#[test]
fn split_rejects_too_many_or_no_folds() {
    assert_eq!(split_data(&data(4), &response(4), 0, 5), Err(UtilsError::DegenerateInput));
    assert_eq!(split_data(&data(4), &response(4), 0, 0), Err(UtilsError::DegenerateInput));
    assert_eq!(split_data(&data(0), &response(0), 0, 1), Err(UtilsError::DegenerateInput));
}

#[test]
fn split_rejects_a_fold_that_is_none() {
    assert_eq!(split_data(&data(4), &response(4), 2, 2), Err(UtilsError::IndexOutOfRange));
}
