//! Verified building blocks of a small quantitative-analysis toolkit.
//!
//! Binary64 values are carried by their IEEE 754 bit patterns (`u64`), so the
//! selection, ordering, validation and scaling decisions of the toolkit can be
//! stated and proved over integers. The floating-point arithmetic itself lives
//! outside this crate.

pub mod binary64;
pub mod convert;
pub mod deviations;
pub mod extrema;
pub mod moments;
pub mod ordering;
pub mod quantile;
pub mod reference_data;
pub mod text;
pub mod value;
