use vstd::prelude::*;
use vstd::arithmetic::div_mod::{
    lemma_div_by_multiple, lemma_div_is_ordered, lemma_fundamental_div_mod,
    lemma_fundamental_div_mod_converse,
};
use crate::error::UtilsError;
use crate::matrix::{table, Matrix, MatrixView};

verus! {

/// The first row of the test slice of fold `fold` out of `folds`, over `n` rows.
pub open spec fn fold_start(n: int, fold: int, folds: int) -> int {
    fold * (n / folds)
}

/// One past the last row of that test slice: the last fold takes the rows
/// that the division leaves over.
pub open spec fn fold_end(n: int, fold: int, folds: int) -> int {
    if fold == folds - 1 {
        n
    } else {
        fold_start(n, fold, folds) + n / folds
    }
}

/// Row `i` belongs to the test slice of fold `fold`.
pub open spec fn in_fold(n: int, fold: int, folds: int, i: int) -> bool {
    fold_start(n, fold, folds) <= i < fold_end(n, fold, folds)
}

/// The fold whose test slice holds row `i`.
pub open spec fn fold_of_row(n: int, folds: int, i: int) -> int {
    if i / (n / folds) >= folds - 1 {
        folds - 1
    } else {
        i / (n / folds)
    }
}

/// The part of `s` that a test slice `[start, end)` takes.
pub open spec fn held_out<A>(s: Seq<A>, start: int, end: int) -> Seq<A> {
    s.subrange(start, end)
}

/// What is left of `s` for training, in the order it came in.
pub open spec fn kept<A>(s: Seq<A>, start: int, end: int) -> Seq<A> {
    s.subrange(0, start) + s.subrange(end, s.len() as int)
}

/// The training part that the first `i` entries of `s` give.
spec fn kept_upto<A>(s: Seq<A>, start: int, end: int, i: int) -> Seq<A> {
    s.subrange(0, if i < start { i } else { start }) + s.subrange(end, if i < end { end } else { i })
}

/// The test part that the first `i` entries of `s` give.
spec fn held_out_upto<A>(s: Seq<A>, start: int, end: int, i: int) -> Seq<A> {
    s.subrange(start, if i < start { start } else if i < end { i } else { end })
}

/// Taking entry `i` into its part extends that part by it and leaves the
/// other part alone.
proof fn lemma_take_entry<A>(s: Seq<A>, start: int, end: int, i: int)
    requires
        0 <= start <= end <= s.len(),
        0 <= i < s.len(),
    ensures
        start <= i < end ==> held_out_upto(s, start, end, i + 1) == held_out_upto(s, start, end, i).push(s[i])
            && kept_upto(s, start, end, i + 1) == kept_upto(s, start, end, i),
        !(start <= i < end) ==> kept_upto(s, start, end, i + 1) == kept_upto(s, start, end, i).push(s[i])
            && held_out_upto(s, start, end, i + 1) == held_out_upto(s, start, end, i),
        kept_upto(s, start, end, 0) == Seq::<A>::empty(),
        held_out_upto(s, start, end, 0) == Seq::<A>::empty(),
        kept_upto(s, start, end, s.len() as int) == kept(s, start, end),
        held_out_upto(s, start, end, s.len() as int) == held_out(s, start, end),
{
    if start <= i < end {
        assert(held_out_upto(s, start, end, i + 1) =~= held_out_upto(s, start, end, i).push(s[i]));
        assert(kept_upto(s, start, end, i + 1) =~= kept_upto(s, start, end, i));
    } else {
        assert(kept_upto(s, start, end, i + 1) =~= kept_upto(s, start, end, i).push(s[i]));
        assert(held_out_upto(s, start, end, i + 1) =~= held_out_upto(s, start, end, i));
    }
    assert(kept_upto(s, start, end, 0) =~= Seq::<A>::empty());
    assert(held_out_upto(s, start, end, 0) =~= Seq::<A>::empty());
    assert(kept_upto(s, start, end, s.len() as int) =~= kept(s, start, end));
    assert(held_out_upto(s, start, end, s.len() as int) =~= held_out(s, start, end));
}

/// Why a split of `n` rows with `responses` responses is refused, if it is:
/// the lengths must agree, every fold must get a row, and the fold must be
/// one of the folds.
pub open spec fn split_refusal(n: int, responses: int, fold: int, folds: int) -> Option<UtilsError> {
    if responses != n {
        Some(UtilsError::DimensionMismatch)
    } else if folds == 0 || folds > n {
        Some(UtilsError::DegenerateInput)
    } else if fold >= folds {
        Some(UtilsError::IndexOutOfRange)
    } else {
        None
    }
}

/// A fold's slice lies within the rows, and no fold is empty.
pub proof fn lemma_fold_within(n: int, fold: int, folds: int)
    requires
        1 <= folds <= n,
        0 <= fold < folds,
    ensures
        1 <= n / folds,
        0 <= fold_start(n, fold, folds) < fold_end(n, fold, folds) <= n,
        fold_start(n, fold, folds) + n / folds <= n,
{
    let q = n / folds;
    lemma_fundamental_div_mod(n, folds);
    lemma_div_is_ordered(folds, n, folds);
    lemma_div_by_multiple(1, folds);
    assert(1 * folds == folds);
    assert(folds / folds == 1);
    assert(q >= 1);
    assert(n % folds >= 0);
    assert(fold * q >= 0) by (nonlinear_arith)
        requires
            fold >= 0,
            q >= 0,
    ;
    assert(fold * q + q <= folds * q) by (nonlinear_arith)
        requires
            fold + 1 <= folds,
            q >= 0,
    ;
    assert(folds * q <= n);
}

/// The test slice `[start, end)` of fold `fold` out of `cv_folds`, over `n`
/// rows. Fails with `DegenerateInput` exactly when there are no folds or
/// more folds than rows, and otherwise with `IndexOutOfRange` exactly when
/// `fold` is not one of the folds.
pub fn fold_bounds(n: usize, fold: usize, cv_folds: usize) -> (r: Result<(usize, usize), UtilsError>)
    ensures
        match r {
            Ok((start, end)) => split_refusal(n as int, n as int, fold as int, cv_folds as int)
                is None && start == fold_start(n as int, fold as int, cv_folds as int) && end
                == fold_end(n as int, fold as int, cv_folds as int) && start < end <= n,
            Err(e) => split_refusal(n as int, n as int, fold as int, cv_folds as int) == Some(e),
        },
{
    if cv_folds == 0 || cv_folds > n {
        return Err(UtilsError::DegenerateInput);
    }
    if fold >= cv_folds {
        return Err(UtilsError::IndexOutOfRange);
    }
    proof {
        lemma_fold_within(n as int, fold as int, cv_folds as int);
    }
    let fold_size: usize = n / cv_folds;
    let start: usize = fold * fold_size;
    let end: usize = if fold == cv_folds - 1 {
        n
    } else {
        start + fold_size
    };
    Ok((start, end))
}

/// Splits a data set into the training and the test part of one fold of a
/// contiguous k-fold partition: `(train_data, test_data, train_response,
/// test_response)`. The test part is rows `[fold_start, fold_end)`, the
/// training part every other row, both in the order the rows came in.
///
/// Fails as `split_refusal` says, and on no other input.
pub fn split_data<T: Copy>(
    data: &Matrix<T>,
    response: &Vec<T>,
    fold: usize,
    cv_folds: usize,
) -> (r: Result<(Matrix<T>, Matrix<T>, Vec<T>, Vec<T>), UtilsError>)
    ensures
        match r {
            Ok((train_data, test_data, train_response, test_response)) => {
                let n = data@.height() as int;
                let start = fold_start(n, fold as int, cv_folds as int);
                let end = fold_end(n, fold as int, cv_folds as int);
                &&& split_refusal(n, response@.len() as int, fold as int, cv_folds as int) is None
                &&& train_data@ == (MatrixView {
                    cols: data@.cols,
                    rows: kept(data@.rows, start, end),
                })
                &&& test_data@ == (MatrixView {
                    cols: data@.cols,
                    rows: held_out(data@.rows, start, end),
                })
                &&& train_response@ == kept(response@, start, end)
                &&& test_response@ == held_out(response@, start, end)
                &&& train_data@.well_shaped()
                &&& test_data@.well_shaped()
                &&& test_data@.height() == end - start
                &&& train_data@.height() + test_data@.height() == n
            },
            Err(e) => split_refusal(
                data@.height() as int,
                response@.len() as int,
                fold as int,
                cv_folds as int,
            ) == Some(e),
        },
{
    let n: usize = data.nrows();
    let p: usize = data.ncols();
    if response.len() != n {
        return Err(UtilsError::DimensionMismatch);
    }
    let (start, end) = match fold_bounds(n, fold, cv_folds) {
        Ok(bounds) => bounds,
        Err(e) => {
            return Err(e);
        },
    };
    let mut train_rows: Vec<Vec<T>> = Vec::new();
    let mut test_rows: Vec<Vec<T>> = Vec::new();
    let mut train_response: Vec<T> = Vec::new();
    let mut test_response: Vec<T> = Vec::new();
    let mut i: usize = 0;
    proof {
        lemma_take_entry(data@.rows, start as int, end as int, 0);
        lemma_take_entry(response@, start as int, end as int, 0);
        assert(table(train_rows@) =~= Seq::<Seq<T>>::empty());
        assert(table(test_rows@) =~= Seq::<Seq<T>>::empty());
    }
    while i < n
        invariant
            n == data@.height(),
            n == response@.len(),
            p == data@.cols,
            data@.well_shaped(),
            start < end <= n,
            i <= n,
            table(train_rows@) == kept_upto(data@.rows, start as int, end as int, i as int),
            table(test_rows@) == held_out_upto(data@.rows, start as int, end as int, i as int),
            train_response@ == kept_upto(response@, start as int, end as int, i as int),
            test_response@ == held_out_upto(response@, start as int, end as int, i as int),
        decreases n - i,
    {
        let row = data.row(i);
        proof {
            lemma_take_entry(data@.rows, start as int, end as int, i as int);
            lemma_take_entry(response@, start as int, end as int, i as int);
        }
        let ghost train_before = train_rows@;
        let ghost test_before = test_rows@;
        if i >= start && i < end {
            test_rows.push(row);
            test_response.push(response[i]);
            proof {
                assert(table(test_rows@) =~= table(test_before).push(row@));
            }
        } else {
            train_rows.push(row);
            train_response.push(response[i]);
            proof {
                assert(table(train_rows@) =~= table(train_before).push(row@));
            }
        }
        i += 1;
    }
    let ghost train_view = MatrixView { cols: p as nat, rows: table(train_rows@) };
    let ghost test_view = MatrixView { cols: p as nat, rows: table(test_rows@) };
    proof {
        lemma_take_entry(data@.rows, start as int, end as int, 0);
        lemma_take_entry(response@, start as int, end as int, 0);
        assert forall|k: int| 0 <= k < train_view.rows.len() implies (#[trigger] train_view.rows[k]).len()
            == train_view.cols by {
            let source = if k < start { k } else { k - start + end };
            assert(train_view.rows[k] == data@.rows[source]);
        }
        assert forall|k: int| 0 <= k < test_view.rows.len() implies (#[trigger] test_view.rows[k]).len()
            == test_view.cols by {
            assert(test_view.rows[k] == data@.rows[k + start]);
        }
    }
    let train_data = match Matrix::from_rows(train_rows, p) {
        Ok(m) => m,
        Err(e) => {
            return Err(e);
        },
    };
    let test_data = match Matrix::from_rows(test_rows, p) {
        Ok(m) => m,
        Err(e) => {
            return Err(e);
        },
    };
    Ok((train_data, test_data, train_response, test_response))
}

/// Every row lies in the test slice of exactly one fold, `fold_of_row`.
pub proof fn lemma_every_row_in_one_fold(n: int, folds: int, i: int)
    requires
        1 <= folds <= n,
        0 <= i < n,
    ensures
        0 <= fold_of_row(n, folds, i) < folds,
        in_fold(n, fold_of_row(n, folds, i), folds, i),
        forall|g: int| 0 <= g < folds && #[trigger] in_fold(n, g, folds, i) ==> g == fold_of_row(n, folds, i),
{
    let q = n / folds;
    let f = fold_of_row(n, folds, i);
    lemma_fold_within(n, 0, folds);
    lemma_fundamental_div_mod(i, q);
    lemma_div_is_ordered(0, i, q);
    assert(0int / q == 0) by {
        lemma_div_by_multiple(0, q);
        assert(0 * q == 0);
    }
    assert(0 <= i % q < q);
    assert(0 <= f < folds);
    lemma_fold_within(n, f, folds);
    if i / q >= folds - 1 {
        assert(q * (folds - 1) <= q * (i / q)) by (nonlinear_arith)
            requires
                folds - 1 <= i / q,
                q >= 0,
        ;
        assert(f * q == q * (folds - 1)) by (nonlinear_arith)
            requires
                f == folds - 1,
        ;
    } else {
        assert(f * q == q * (i / q)) by (nonlinear_arith)
            requires
                f == i / q,
        ;
    }
    assert(in_fold(n, f, folds, i));
    assert forall|g: int| 0 <= g < folds && #[trigger] in_fold(n, g, folds, i) implies g == f by {
        if g == folds - 1 {
            lemma_div_is_ordered(g * q, i, q);
            lemma_div_by_multiple(g, q);
        } else {
            lemma_fundamental_div_mod_converse(i, q, g, i - g * q);
        }
    }
}

/// Where the folds divide the rows evenly, every test slice has the same
/// number of rows, and the slices follow one another without a gap.
pub proof fn lemma_even_folds_tile_the_rows(n: int, fold: int, folds: int)
    requires
        1 <= folds <= n,
        n % folds == 0,
        0 <= fold < folds,
    ensures
        fold_end(n, fold, folds) - fold_start(n, fold, folds) == n / folds,
        fold_start(n, 0, folds) == 0,
        fold + 1 < folds ==> fold_start(n, fold + 1, folds) == fold_end(n, fold, folds),
        fold + 1 == folds ==> fold_end(n, fold, folds) == n,
{
    let q = n / folds;
    lemma_fundamental_div_mod(n, folds);
    assert((folds - 1) * q + q == folds * q) by (nonlinear_arith);
    assert((fold + 1) * q == fold * q + q) by (nonlinear_arith);
    assert(0 * q == 0);
}

/// The training part of a split is the complement of its test part: the two
/// have every entry between them, each once and in the order it came in.
pub proof fn lemma_train_is_complement_of_test<A>(s: Seq<A>, start: int, end: int)
    requires
        0 <= start <= end <= s.len(),
    ensures
        held_out(s, start, end).len() == end - start,
        kept(s, start, end).len() + held_out(s, start, end).len() == s.len(),
        kept(s, start, end).subrange(0, start) + held_out(s, start, end) + kept(s, start, end).subrange(
            start,
            kept(s, start, end).len() as int,
        ) == s,
        forall|i: int| start <= i < end ==> #[trigger] s[i] == held_out(s, start, end)[i - start],
        forall|i: int| 0 <= i < start ==> #[trigger] s[i] == kept(s, start, end)[i],
        forall|i: int| end <= i < s.len() ==> #[trigger] s[i] == kept(s, start, end)[i - (end - start)],
{
    let train = kept(s, start, end);
    let test = held_out(s, start, end);
    assert(train.subrange(0, start) + test + train.subrange(start, train.len() as int) =~= s);
}

} // verus!
