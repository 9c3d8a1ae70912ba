//! What can go wrong, and of which kind each failure is.

use vstd::prelude::*;

verus! {

/// The two kinds of failure that callers tell apart.
#[derive(Debug, Clone, Copy, PartialEq, Eq, Structural)]
pub enum ErrorKind {
    /// The caller's arguments cannot be worked on.
    InvalidInput,
    /// The numeric provider failed, or handed back something unusable.
    NumericFailure,
}

/// A failure, with the values that caused it.
#[derive(Debug, Clone, Copy, PartialEq, Eq, Structural)]
pub enum Error {
    /// Two vectors that are to be compared differ in length.
    LengthMismatch { left: usize, right: usize },
    /// A covariance needs at least two samples.
    TooFewSamples { n_samples: usize },
    /// The number of components is not between 1 and the number of features.
    ComponentCount { n_components: usize, n_features: usize },
    /// The eigendecomposition did not converge.
    NoConvergence,
    /// The eigenvalue at `index` is a NaN, so the eigenvalues have no order.
    NanEigenvalue { index: usize },
    /// A matrix came back from the numeric provider in another shape than
    /// the step calls for.
    ShapeMismatch { rows: usize, cols: usize, expected_rows: usize, expected_cols: usize },
}

impl Error {
    /// The kind of each failure.
    pub open spec fn kind_of(self) -> ErrorKind {
        match self {
            Error::LengthMismatch { .. } => ErrorKind::InvalidInput,
            Error::TooFewSamples { .. } => ErrorKind::InvalidInput,
            Error::ComponentCount { .. } => ErrorKind::InvalidInput,
            Error::NoConvergence => ErrorKind::NumericFailure,
            Error::NanEigenvalue { .. } => ErrorKind::NumericFailure,
            Error::ShapeMismatch { .. } => ErrorKind::NumericFailure,
        }
    }

    /// Returns the kind of this failure.
    pub fn kind(&self) -> (k: ErrorKind)
        ensures
            k == self.kind_of(),
    {
        match self {
            Error::LengthMismatch { .. } => ErrorKind::InvalidInput,
            Error::TooFewSamples { .. } => ErrorKind::InvalidInput,
            Error::ComponentCount { .. } => ErrorKind::InvalidInput,
            Error::NoConvergence => ErrorKind::NumericFailure,
            Error::NanEigenvalue { .. } => ErrorKind::NumericFailure,
            Error::ShapeMismatch { .. } => ErrorKind::NumericFailure,
        }
    }
}

} // verus!
