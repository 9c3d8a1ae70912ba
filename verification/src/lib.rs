//! Verified core of a small numeric toolkit: principal component analysis on a
//! dense dataset and pairwise vector metrics.
//!
//! Numbers are IEEE 754 binary64 values. This crate never computes with them:
//! it handles each one by its 64-bit pattern, which is enough to classify it
//! and to order it. What the crate decides is which inputs are accepted, which
//! results are fixed without arithmetic, in what order eigenpairs are taken
//! and which of them make up the projection matrix.

pub mod binary64;
pub mod error;
pub mod matrix;
pub mod metrics;
pub mod pca;
pub mod ranking;
