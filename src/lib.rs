//! Helpers for fixed-width character grids and for pulling numbers out of free-form text.
//!
//! Failures that the caller can trigger with bad input are reported as values of
//! [`GridError`]; accessors with a coordinate argument state their bounds as preconditions.
pub mod grid;
pub mod numbers;
mod sealed;

pub use grid::{Cols, Grid, GridCol, GridColIter, GridError, GridRow, GridRowIter, Rows};
pub use numbers::{ExtractNumbers, StrExt};
