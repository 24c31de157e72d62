//! NIST Statistical Reference Datasets.

pub mod univariate;
