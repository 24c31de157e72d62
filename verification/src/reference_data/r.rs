//! Fixtures and reference statistics generated with R.
//!
//! Fixtures are one-column CSV files headed `value`; the references are CSV
//! tables with one or more rows per fixture, keyed by the fixture's case name
//! in the first column.

pub mod csv;
pub mod moments;
pub mod quantiles;
