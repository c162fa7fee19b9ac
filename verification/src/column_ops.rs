use vstd::prelude::*;
use crate::error::UtilsError;
use crate::matrix::{Matrix, MatrixView};

verus! {

/// Where entry `t` of an off-diagonal column sits in the full column: the
/// entries before `j` keep their place, the others are one row further down.
pub open spec fn full_index(t: int, j: int) -> int {
    if t < j {
        t
    } else {
        t + 1
    }
}

/// Column `j` without its entry in row `j`.
pub open spec fn offdiag<T>(m: MatrixView<T>, j: int) -> Seq<T> {
    m.column(j).remove(j)
}

/// An off-diagonal column made whole again, with `fill` in row `j`.
pub open spec fn refilled<T>(column: Seq<T>, j: int, fill: T) -> Seq<T> {
    column.insert(j, fill)
}

/// The row of the full column that entry `t` of the off-diagonal column
/// belongs to. Both directions of the index shift go through this function.
pub fn row_of_entry(t: usize, j: usize) -> (k: usize)
    requires
        t < usize::MAX,
    ensures
        k == full_index(t as int, j as int),
        k != j,
{
    if t < j {
        t
    } else {
        t + 1
    }
}

/// Column `j` of `matrix`, top to bottom. Fails with `IndexOutOfRange`
/// exactly when the matrix has no column `j`.
pub fn get_column<T: Copy>(matrix: &Matrix<T>, j: usize) -> (r: Result<Vec<T>, UtilsError>)
    ensures
        match r {
            Ok(v) => j < matrix@.cols && v@ == matrix@.column(j as int) && v@.len() == matrix@.height(),
            Err(e) => e == UtilsError::IndexOutOfRange && j >= matrix@.cols,
        },
{
    if j >= matrix.ncols() {
        return Err(UtilsError::IndexOutOfRange);
    }
    let n: usize = matrix.nrows();
    let mut vector: Vec<T> = Vec::new();
    let mut i: usize = 0;
    while i < n
        invariant
            n == matrix@.height(),
            j < matrix@.cols,
            i <= n,
            vector@.len() == i,
            forall|k: int| 0 <= k < i ==> vector@[k] == matrix@.at(k, j as int),
        decreases n - i,
    {
        vector.push(matrix.entry(i, j));
        i += 1;
    }
    proof {
        assert(vector@ =~= matrix@.column(j as int));
    }
    Ok(vector)
}

/// Column `j` of `matrix` without the entry in row `j`: the response of the
/// regression of variable `j` on the others. Fails with `IndexOutOfRange`
/// exactly when `j` is not both a column and a row of the matrix.
pub fn offdiag_column<T: Copy>(matrix: &Matrix<T>, j: usize) -> (r: Result<Vec<T>, UtilsError>)
    ensures
        match r {
            Ok(v) => j < matrix@.cols && j < matrix@.height() && v@ == offdiag(matrix@, j as int)
                && v@.len() == matrix@.height() - 1,
            Err(e) => e == UtilsError::IndexOutOfRange && !(j < matrix@.cols && j < matrix@.height()),
        },
{
    let n: usize = matrix.nrows();
    if j >= matrix.ncols() || j >= n {
        return Err(UtilsError::IndexOutOfRange);
    }
    let mut column: Vec<T> = Vec::new();
    let mut t: usize = 0;
    while t < n - 1
        invariant
            n == matrix@.height(),
            j < matrix@.cols,
            j < n,
            t <= n - 1,
            column@.len() == t,
            forall|s: int| 0 <= s < t ==> column@[s] == matrix@.at(full_index(s, j as int), j as int),
        decreases n - 1 - t,
    {
        let k: usize = row_of_entry(t, j);
        column.push(matrix.entry(k, j));
        t += 1;
    }
    proof {
        assert(column@ =~= offdiag(matrix@, j as int));
    }
    Ok(column)
}

/// The matrix without column `j`: the design matrix of "every variable but
/// `j`". Fails with `IndexOutOfRange` exactly when there is no column `j`.
pub fn remove_column<T: Copy>(matrix: &Matrix<T>, j: usize) -> (r: Result<Matrix<T>, UtilsError>)
    ensures
        match r {
            Ok(m) => j < matrix@.cols && m@ == matrix@.without_column(j as int) && m@.well_shaped()
                && m@.height() == matrix@.height() && m@.cols == matrix@.cols - 1,
            Err(e) => e == UtilsError::IndexOutOfRange && j >= matrix@.cols,
        },
{
    let p: usize = matrix.ncols();
    if j >= p {
        return Err(UtilsError::IndexOutOfRange);
    }
    let n: usize = matrix.nrows();
    let mut rows: Vec<Vec<T>> = Vec::new();
    let mut i: usize = 0;
    while i < n
        invariant
            n == matrix@.height(),
            p == matrix@.cols,
            matrix@.well_shaped(),
            j < p,
            i <= n,
            rows@.len() == i,
            forall|r: int| 0 <= r < i ==> (#[trigger] rows@[r])@ == matrix@.rows[r].remove(j as int),
        decreases n - i,
    {
        let mut row: Vec<T> = Vec::new();
        let mut k: usize = 0;
        while k < p
            invariant
                i < n,
                n == matrix@.height(),
                p == matrix@.cols,
                matrix@.well_shaped(),
                j < p,
                k <= p,
                row@.len() == (if k <= j { k as int } else { k - 1 }),
                forall|c: int| 0 <= c < row@.len() ==> row@[c] == matrix@.at(i as int, full_index(c, j as int)),
            decreases p - k,
        {
            if k != j {
                row.push(matrix.entry(i, k));
            }
            k += 1;
        }
        proof {
            assert(matrix@.rows[i as int].len() == p);
            assert(row@ =~= matrix@.rows[i as int].remove(j as int));
        }
        rows.push(row);
        i += 1;
    }
    let ghost wanted = matrix@.without_column(j as int);
    proof {
        assert(crate::matrix::table(rows@) =~= wanted.rows);
        assert forall|r: int| 0 <= r < wanted.rows.len() implies (#[trigger] wanted.rows[r]).len()
            == wanted.cols by {
            assert(matrix@.rows[r].len() == p);
        }
    }
    match Matrix::from_rows(rows, p - 1) {
        Ok(m) => Ok(m),
        Err(e) => Err(e),
    }
}

/// Why `set_column` refuses to write a column of `entries` entries into
/// column `j`, if it does: `j` must be both a column and a row of the
/// matrix, and the column must have one entry fewer than the matrix has rows.
pub open spec fn set_column_refusal<T>(m: MatrixView<T>, j: int, entries: int) -> Option<UtilsError> {
    if j >= m.cols || j >= m.height() {
        Some(UtilsError::IndexOutOfRange)
    } else if entries + 1 != m.height() {
        Some(UtilsError::DimensionMismatch)
    } else {
        None
    }
}

/// Writes an off-diagonal column back into column `j` of `matrix`: entry `t`
/// goes to row `full_index(t, j)`, and the entry in row `j` becomes `fill`.
/// The other columns stay as they are.
///
/// Fails as `set_column_refusal` says, and then leaves the matrix as it was.
pub fn set_column<T: Copy>(matrix: &mut Matrix<T>, j: usize, column: &Vec<T>, fill: T) -> (r: Result<(), UtilsError>)
    ensures
        match r {
            Ok(_) => set_column_refusal(old(matrix)@, j as int, column@.len() as int) is None
                && final(matrix)@ == old(matrix)@.with_column(j as int, refilled(column@, j as int, fill)),
            Err(e) => set_column_refusal(old(matrix)@, j as int, column@.len() as int) == Some(e)
                && final(matrix)@ == old(matrix)@,
        },
{
    let n: usize = matrix.nrows();
    if j >= matrix.ncols() || j >= n {
        return Err(UtilsError::IndexOutOfRange);
    }
    if column.len() != n - 1 {
        return Err(UtilsError::DimensionMismatch);
    }
    let ghost whole = refilled(column@, j as int, fill);
    matrix.put(j, j, fill);
    let mut t: usize = 0;
    while t < n - 1
        invariant
            n == old(matrix)@.height(),
            column@.len() == n - 1,
            j < n,
            j < old(matrix)@.cols,
            t <= n - 1,
            whole == refilled(column@, j as int, fill),
            matrix@.cols == old(matrix)@.cols,
            matrix@.rows.len() == n,
            forall|i: int|
                0 <= i < n ==> #[trigger] matrix@.rows[i] == (if i == j || i < full_index(
                    t as int,
                    j as int,
                ) {
                    old(matrix)@.rows[i].update(j as int, whole[i])
                } else {
                    old(matrix)@.rows[i]
                }),
        decreases n - 1 - t,
    {
        let k: usize = row_of_entry(t, j);
        matrix.put(k, j, column[t]);
        t += 1;
    }
    proof {
        assert(matrix@.rows =~= old(matrix)@.with_column(j as int, whole).rows);
    }
    Ok(())
}

/// Writing the off-diagonal part of column `j` back into a copy of the
/// matrix gives the matrix again, except that entry `(j, j)` holds `fill`.
pub proof fn lemma_set_offdiag_round_trip<T>(m: MatrixView<T>, j: int, fill: T)
    requires
        m.well_shaped(),
        0 <= j < m.cols,
        j < m.height(),
    ensures
        refilled(offdiag(m, j), j, fill) == m.column(j).update(j, fill),
        m.with_column(j, refilled(offdiag(m, j), j, fill)).cols == m.cols,
        m.with_column(j, refilled(offdiag(m, j), j, fill)).rows == m.rows.update(
            j,
            m.rows[j].update(j, fill),
        ),
        m.with_column(j, refilled(offdiag(m, j), j, fill)).well_shaped(),
        forall|i: int, k: int|
            0 <= i < m.height() && 0 <= k < m.cols ==> #[trigger] m.with_column(
                j,
                refilled(offdiag(m, j), j, fill),
            ).at(i, k) == (if i == j && k == j {
                fill
            } else {
                m.at(i, k)
            }),
{
    let whole = refilled(offdiag(m, j), j, fill);
    let back = m.with_column(j, whole);
    assert(whole =~= m.column(j).update(j, fill));
    assert forall|i: int| 0 <= i < m.height() implies #[trigger] back.rows[i] == m.rows.update(
        j,
        m.rows[j].update(j, fill),
    )[i] by {
        assert(m.rows[i].len() == m.cols);
        if i == j {
            assert(back.rows[i] =~= m.rows[j].update(j, fill));
        } else {
            assert(whole[i] == m.rows[i][j]);
            assert(back.rows[i] =~= m.rows[i]);
        }
    }
    assert(back.rows =~= m.rows.update(j, m.rows[j].update(j, fill)));
    assert forall|i: int| 0 <= i < back.rows.len() implies (#[trigger] back.rows[i]).len()
        == back.cols by {
        assert(m.rows[i].len() == m.cols);
    }
    assert forall|i: int, k: int| 0 <= i < m.height() && 0 <= k < m.cols implies #[trigger] back.at(
        i,
        k,
    ) == (if i == j && k == j {
        fill
    } else {
        m.at(i, k)
    }) by {
        assert(m.rows[i].len() == m.cols);
    }
}

/// Removing column `j` keeps the rows, leaves one column fewer, and keeps
/// every other column as it was and where it was relative to the others:
/// the columns before `j` stay, the columns after it move one place left.
pub proof fn lemma_remove_column_keeps_the_rest<T>(m: MatrixView<T>, j: int)
    requires
        m.well_shaped(),
        0 <= j < m.cols,
    ensures
        m.without_column(j).height() == m.height(),
        m.without_column(j).cols == m.cols - 1,
        m.without_column(j).well_shaped(),
        forall|c: int|
            0 <= c < m.cols - 1 ==> #[trigger] m.without_column(j).column(c) == m.column(
                full_index(c, j),
            ),
{
    let less = m.without_column(j);
    assert forall|i: int| 0 <= i < less.rows.len() implies (#[trigger] less.rows[i]).len()
        == less.cols by {
        assert(m.rows[i].len() == m.cols);
    }
    assert forall|c: int| 0 <= c < m.cols - 1 implies #[trigger] less.column(c) == m.column(
        full_index(c, j),
    ) by {
        assert forall|i: int| 0 <= i < m.height() implies less.column(c)[i] == m.column(
            full_index(c, j),
        )[i] by {
            assert(m.rows[i].len() == m.cols);
        }
        assert(less.column(c) =~= m.column(full_index(c, j)));
    }
}

} // verus!
