use vstd::prelude::*;
use crate::error::UtilsError;

verus! {

/// The mathematical value of a matrix: its rows, top to bottom, and its
/// number of columns (which the rows alone do not give when there are none).
pub struct MatrixView<T> {
    pub cols: nat,
    pub rows: Seq<Seq<T>>,
}

impl<T> MatrixView<T> {
    /// Every row has `cols` entries.
    pub open spec fn well_shaped(self) -> bool {
        forall|i: int| 0 <= i < self.rows.len() ==> (#[trigger] self.rows[i]).len() == self.cols
    }

    /// The number of rows.
    pub open spec fn height(self) -> nat {
        self.rows.len()
    }

    /// The entry in row `i`, column `j`.
    pub open spec fn at(self, i: int, j: int) -> T {
        self.rows[i][j]
    }

    /// Column `j`, top to bottom.
    pub open spec fn column(self, j: int) -> Seq<T> {
        Seq::new(self.rows.len(), |i: int| self.rows[i][j])
    }

    /// The matrix without column `j`: the other columns keep their order.
    pub open spec fn without_column(self, j: int) -> MatrixView<T> {
        MatrixView {
            cols: (self.cols - 1) as nat,
            rows: Seq::new(self.rows.len(), |i: int| self.rows[i].remove(j)),
        }
    }

    /// The matrix with column `j` replaced by `column`, entry for entry.
    pub open spec fn with_column(self, j: int, column: Seq<T>) -> MatrixView<T> {
        MatrixView {
            cols: self.cols,
            rows: Seq::new(self.rows.len(), |i: int| self.rows[i].update(j, column[i])),
        }
    }
}

/// The rows of a matrix as sequences, from the vectors that hold them.
pub open spec fn table<T>(rows: Seq<Vec<T>>) -> Seq<Seq<T>> {
    Seq::new(rows.len(), |i: int| rows[i]@)
}

/// A dense, rectangular matrix, held row by row.
#[derive(Debug, PartialEq)]
pub struct Matrix<T> {
    cols: usize,
    data: Vec<Vec<T>>,
}

impl<T> View for Matrix<T> {
    type V = MatrixView<T>;

    closed spec fn view(&self) -> MatrixView<T> {
        MatrixView { cols: self.cols as nat, rows: table(self.data@) }
    }
}

impl<T> Matrix<T> {
    #[verifier::type_invariant]
    spec fn rectangular(self) -> bool {
        forall|i: int| 0 <= i < self.data@.len() ==> (#[trigger] self.data@[i])@.len() == self.cols
    }
}

/// Overwrites entry `j` of row `i` and leaves every length as it was.
fn overwrite<T>(data: &mut Vec<Vec<T>>, i: usize, j: usize, value: T)
    requires
        i < old(data)@.len(),
        j < old(data)@[i as int]@.len(),
    ensures
        final(data)@.len() == old(data)@.len(),
        final(data)@[i as int]@ == old(data)@[i as int]@.update(j as int, value),
        forall|k: int| 0 <= k < old(data)@.len() && k != i ==> final(data)@[k] == old(data)@[k],
    no_unwind
{
    data[i][j] = value;
}

impl<T: Copy> Matrix<T> {
    /// Builds a matrix of `cols` columns from its rows. Fails with
    /// `DimensionMismatch` exactly when some row does not have `cols` entries.
    pub fn from_rows(rows: Vec<Vec<T>>, cols: usize) -> (r: Result<Matrix<T>, UtilsError>)
        ensures
            match r {
                Ok(m) => m@ == (MatrixView { cols: cols as nat, rows: table(rows@) })
                    && m@.well_shaped(),
                Err(e) => e == UtilsError::DimensionMismatch
                    && !(MatrixView { cols: cols as nat, rows: table(rows@) }).well_shaped(),
            },
    {
        let ghost target = MatrixView { cols: cols as nat, rows: table(rows@) };
        let n: usize = rows.len();
        let mut i: usize = 0;
        while i < n
            invariant
                n == rows@.len(),
                i <= n,
                target == (MatrixView { cols: cols as nat, rows: table(rows@) }),
                forall|k: int| 0 <= k < i ==> (#[trigger] rows@[k])@.len() == cols,
            decreases n - i,
        {
            if rows[i].len() != cols {
                proof {
                    assert(target.rows[i as int].len() != target.cols);
                }
                return Err(UtilsError::DimensionMismatch);
            }
            i += 1;
        }
        proof {
            assert forall|k: int| 0 <= k < target.rows.len() implies (#[trigger] target.rows[k]).len()
                == target.cols by {
                assert(rows@[k]@.len() == cols);
            }
        }
        Ok(Matrix { cols, data: rows })
    }

    /// Hands the rows out, top to bottom.
    pub fn into_rows(self) -> (rows: Vec<Vec<T>>)
        ensures
            table(rows@) == self@.rows,
            self@.well_shaped(),
    {
        proof {
            use_type_invariant(&self);
            assert forall|k: int| 0 <= k < self@.rows.len() implies (#[trigger] self@.rows[k]).len()
                == self@.cols by {
                assert(self.data@[k]@.len() == self.cols);
            }
        }
        self.data
    }

    /// Number of rows.
    pub fn nrows(&self) -> (n: usize)
        ensures
            n == self@.height(),
            self@.well_shaped(),
    {
        proof {
            use_type_invariant(self);
            assert forall|k: int| 0 <= k < self@.rows.len() implies (#[trigger] self@.rows[k]).len()
                == self@.cols by {
                assert(self.data@[k]@.len() == self.cols);
            }
        }
        self.data.len()
    }

    /// Number of columns.
    pub fn ncols(&self) -> (n: usize)
        ensures
            n == self@.cols,
            self@.well_shaped(),
    {
        proof {
            use_type_invariant(self);
            assert forall|k: int| 0 <= k < self@.rows.len() implies (#[trigger] self@.rows[k]).len()
                == self@.cols by {
                assert(self.data@[k]@.len() == self.cols);
            }
        }
        self.cols
    }

    /// The entry in row `i`, column `j`, or `None` where there is none.
    pub fn get(&self, i: usize, j: usize) -> (r: Option<T>)
        ensures
            r == (if i < self@.height() && j < self@.cols {
                Some(self@.at(i as int, j as int))
            } else {
                None
            }),
    {
        if i < self.data.len() && j < self.cols {
            Some(self.entry(i, j))
        } else {
            None
        }
    }

    /// The entry in row `i`, column `j`.
    pub fn entry(&self, i: usize, j: usize) -> (value: T)
        requires
            i < self@.height(),
            j < self@.cols,
        ensures
            value == self@.at(i as int, j as int),
    {
        proof {
            use_type_invariant(self);
        }
        self.data[i][j]
    }

    /// A copy of row `i`.
    pub fn row(&self, i: usize) -> (copy: Vec<T>)
        requires
            i < self@.height(),
        ensures
            copy@ == self@.rows[i as int],
    {
        copy_of(&self.data[i])
    }

    /// Overwrites the entry in row `i`, column `j`.
    pub fn put(&mut self, i: usize, j: usize, value: T)
        requires
            i < old(self)@.height(),
            j < old(self)@.cols,
        ensures
            final(self)@.cols == old(self)@.cols,
            final(self)@.rows == old(self)@.rows.update(
                i as int,
                old(self)@.rows[i as int].update(j as int, value),
            ),
    {
        proof {
            use_type_invariant(&*self);
        }
        overwrite(&mut self.data, i, j, value);
        proof {
            assert(self@.rows =~= old(self)@.rows.update(
                i as int,
                old(self)@.rows[i as int].update(j as int, value),
            ));
        }
    }
}

impl<T: Copy> Clone for Matrix<T> {
    fn clone(&self) -> (copy: Self)
        ensures
            copy@ == self@,
    {
        proof {
            use_type_invariant(self);
        }
        let n: usize = self.data.len();
        let mut data: Vec<Vec<T>> = Vec::new();
        let mut i: usize = 0;
        while i < n
            invariant
                n == self.data@.len(),
                i <= n,
                data@.len() == i,
                forall|k: int| 0 <= k < i ==> (#[trigger] data@[k])@ == self.data@[k]@,
                forall|k: int| 0 <= k < n ==> (#[trigger] self.data@[k])@.len() == self.cols,
            decreases n - i,
        {
            let row = copy_of(&self.data[i]);
            data.push(row);
            i += 1;
        }
        proof {
            assert(table(data@) =~= table(self.data@));
        }
        Matrix { cols: self.cols, data }
    }
}

/// A copy of a vector, entry for entry.
pub fn copy_of<T: Copy>(source: &Vec<T>) -> (copy: Vec<T>)
    ensures
        copy@ == source@,
{
    let n: usize = source.len();
    let mut copy: Vec<T> = Vec::new();
    let mut j: usize = 0;
    while j < n
        invariant
            n == source@.len(),
            j <= n,
            copy@ == source@.subrange(0, j as int),
        decreases n - j,
    {
        copy.push(source[j]);
        proof {
            assert(copy@ =~= source@.subrange(0, j + 1));
        }
        j += 1;
    }
    proof {
        assert(copy@ =~= source@);
    }
    copy
}

} // verus!
