//! Reference datasets for the statistical tests, read from their bundled text.
//!
//! [`nist`] reads published datasets with certified statistics; [`r`] reads
//! fixtures and reference statistics generated with R. Loading a dataset
//! reads its file; this module checks the structure of the text and hands
//! back the observations and statistics as the text writes them.

pub mod nist;
pub mod r;
