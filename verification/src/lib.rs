//! Numerical bookkeeping for nodewise sparse regression: dense matrices with
//! column extraction, removal and insertion under the "diagonal excluded"
//! convention, contiguous k-fold partitioning, and the tags of the
//! information criteria used to score a fit.

pub mod column_ops;
pub mod criterion;
pub mod cross_validation;
pub mod error;
pub mod matrix;

pub use column_ops::{get_column, offdiag_column, remove_column, set_column};
pub use criterion::{parse_criterion, Criterion};
pub use cross_validation::{fold_bounds, split_data};
pub use error::UtilsError;
pub use matrix::{Matrix, MatrixView};
