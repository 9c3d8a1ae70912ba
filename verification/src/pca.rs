//! Principal component analysis: what is decided between the numeric steps.
//!
//! The numeric provider centres the data, forms the covariance matrix,
//! decomposes it and multiplies the data by the projection matrix. This
//! module says which datasets and component counts are accepted, builds the
//! projection matrix from the leading eigenvectors and holds the result to
//! its shape.

use crate::binary64::order_key;
use crate::error::{Error, ErrorKind};
use crate::matrix::{Grid, Matrix};
use crate::ranking::{
    has_nan, is_first_nan, is_ranking, lemma_ranking_descends, occurs, rank_eigenvalues,
    ranking_of,
};
use vstd::prelude::*;

verus! {

/// The sizes that one analysis works with.
pub struct Dimensions {
    pub n_samples: nat,
    pub n_features: nat,
    pub n_components: nat,
}

impl Dimensions {
    /// There are at least two samples, and between one component and as many
    /// as there are features.
    pub open spec fn accepted(self) -> bool {
        self.n_samples > 1 && 1 <= self.n_components <= self.n_features
    }
}

/// Why a dataset of `n_samples` rows has no covariance matrix, if it has none.
pub open spec fn sample_defect(n_samples: usize) -> Option<Error> {
    if n_samples <= 1 {
        Some(Error::TooFewSamples { n_samples })
    } else {
        None
    }
}

/// Why an analysis of these sizes is refused, if it is. Too few samples are
/// reported before a wrong number of components.
pub open spec fn rejection(n_samples: usize, n_features: usize, n_components: usize) -> Option<
    Error,
> {
    if n_samples <= 1 {
        Some(Error::TooFewSamples { n_samples })
    } else if n_components == 0 || n_components > n_features {
        Some(Error::ComponentCount { n_components, n_features })
    } else {
        None
    }
}

/// What is wrong with the shape of a decomposition of an `n_features` by
/// `n_features` covariance matrix, if anything: first the number of
/// eigenvalues, taken as a column, then the matrix of eigenvectors.
pub open spec fn shape_defect(n_features: usize, n_values: usize, vectors: Grid) -> Option<Error> {
    if n_values != n_features {
        Some(
            Error::ShapeMismatch {
                rows: n_values,
                cols: 1,
                expected_rows: n_features,
                expected_cols: 1,
            },
        )
    } else if vectors.rows != n_features || vectors.cols != n_features {
        Some(
            Error::ShapeMismatch {
                rows: vectors.rows as usize,
                cols: vectors.cols as usize,
                expected_rows: n_features,
                expected_cols: n_features,
            },
        )
    } else {
        None
    }
}

/// `projection` holds the `n_components` leading eigenvectors as its columns:
/// its column `j` is the column of `vectors` that `order` lists at place `j`.
pub open spec fn is_projection(
    vectors: Grid,
    order: Seq<usize>,
    n_components: nat,
    projection: Grid,
) -> bool {
    &&& projection.well_formed()
    &&& projection.rows == vectors.rows
    &&& projection.cols == n_components
    &&& forall|i: int, j: int|
        0 <= i < vectors.rows && 0 <= j < n_components ==> #[trigger] projection.at(i, j)
            == vectors.at(i, order[j] as int)
}

/// An accepted analysis: the sizes of the dataset and the number of
/// components asked for.
#[derive(Debug, PartialEq, Eq)]
pub struct Pca {
    n_samples: usize,
    n_features: usize,
    n_components: usize,
}

impl View for Pca {
    type V = Dimensions;

    closed spec fn view(&self) -> Dimensions {
        Dimensions {
            n_samples: self.n_samples as nat,
            n_features: self.n_features as nat,
            n_components: self.n_components as nat,
        }
    }
}

/// Tells whether a dataset of `n_samples` rows has a covariance matrix: the
/// divisor `n_samples - 1` has to be positive.
pub fn check_samples(n_samples: usize) -> (r: Result<(), Error>)
    ensures
        r == match sample_defect(n_samples) {
            Some(e) => Err::<(), Error>(e),
            None => Ok(()),
        },
{
    if n_samples <= 1 {
        Err(Error::TooFewSamples { n_samples })
    } else {
        Ok(())
    }
}

impl Pca {
    #[verifier::type_invariant]
    spec fn inv(self) -> bool {
        self.n_samples > 1 && 1 <= self.n_components <= self.n_features
    }

    /// Accepts or refuses an analysis of a dataset of `n_samples` rows and
    /// `n_features` columns down to `n_components` components.
    pub fn new(n_samples: usize, n_features: usize, n_components: usize) -> (r: Result<Pca, Error>)
        ensures
            match r {
                Ok(pca) => rejection(n_samples, n_features, n_components) is None && pca@ == (
                Dimensions {
                    n_samples: n_samples as nat,
                    n_features: n_features as nat,
                    n_components: n_components as nat,
                }) && pca@.accepted(),
                Err(e) => rejection(n_samples, n_features, n_components) == Some(e),
            },
            n_components > n_features ==> r is Err && r->Err_0.kind_of()
                == ErrorKind::InvalidInput,
    {
        match check_samples(n_samples) {
            Err(e) => Err(e),
            Ok(()) => {
                if n_components == 0 || n_components > n_features {
                    Err(Error::ComponentCount { n_components, n_features })
                } else {
                    Ok(Pca { n_samples, n_features, n_components })
                }
            },
        }
    }

    /// The number of rows of the dataset.
    pub fn n_samples(&self) -> (r: usize)
        ensures
            r == self@.n_samples,
    {
        self.n_samples
    }

    /// The number of columns of the dataset.
    pub fn n_features(&self) -> (r: usize)
        ensures
            r == self@.n_features,
    {
        self.n_features
    }

    /// The number of components asked for.
    pub fn n_components(&self) -> (r: usize)
        ensures
            r == self@.n_components,
    {
        self.n_components
    }

    /// Builds the projection matrix from a decomposition of the covariance
    /// matrix: `eigenvalues[c]` belongs to column `c` of `eigenvectors`.
    ///
    /// The decomposition has to have the shape of one, and its eigenvalues
    /// have to be numbers. Then the eigenpairs are ranked and the result holds
    /// the `n_components` leading eigenvectors as its columns.
    pub fn projection(&self, eigenvalues: &Vec<u64>, eigenvectors: &Matrix) -> (r: Result<
        Matrix,
        Error,
    >)
        ensures
            self@.accepted(),
            match r {
                Ok(m) => {
                    &&& shape_defect(
                        self@.n_features as usize,
                        eigenvalues@.len() as usize,
                        eigenvectors@,
                    ) is None
                    &&& !has_nan(eigenvalues@)
                    &&& is_ranking(eigenvalues@, ranking_of(eigenvalues@))
                    &&& is_projection(
                        eigenvectors@,
                        ranking_of(eigenvalues@),
                        self@.n_components,
                        m@,
                    )
                },
                Err(e) => match shape_defect(
                    self@.n_features as usize,
                    eigenvalues@.len() as usize,
                    eigenvectors@,
                ) {
                    Some(defect) => e == defect,
                    None => e matches Error::NanEigenvalue { index } && is_first_nan(
                        eigenvalues@,
                        index as int,
                    ),
                },
            },
    {
        proof {
            use_type_invariant(self);
        }
        let n: usize = self.n_features;
        let given: usize = eigenvalues.len();
        if given != n {
            return Err(
                Error::ShapeMismatch { rows: given, cols: 1, expected_rows: n, expected_cols: 1 },
            );
        }
        let rows: usize = eigenvectors.rows();
        let cols: usize = eigenvectors.cols();
        if rows != n || cols != n {
            return Err(
                Error::ShapeMismatch { rows, cols, expected_rows: n, expected_cols: n },
            );
        }
        match rank_eigenvalues(eigenvalues) {
            Err(e) => Err(e),
            Ok(order) => Ok(eigenvectors.columns(&order, self.n_components)),
        }
    }

    /// Accepts the projected dataset that the numeric provider computed, if it
    /// has one row for each sample and one column for each component.
    pub fn scores(&self, projected: Matrix) -> (r: Result<Matrix, Error>)
        ensures
            match r {
                Ok(m) => m@ == projected@ && m@.rows == self@.n_samples && m@.cols
                    == self@.n_components,
                Err(e) => (projected@.rows != self@.n_samples || projected@.cols
                    != self@.n_components) && e == (Error::ShapeMismatch {
                    rows: projected@.rows as usize,
                    cols: projected@.cols as usize,
                    expected_rows: self@.n_samples as usize,
                    expected_cols: self@.n_components as usize,
                }),
            },
    {
        let rows: usize = projected.rows();
        let cols: usize = projected.cols();
        if rows == self.n_samples && cols == self.n_components {
            Ok(projected)
        } else {
            Err(
                Error::ShapeMismatch {
                    rows,
                    cols,
                    expected_rows: self.n_samples,
                    expected_cols: self.n_components,
                },
            )
        }
    }
}

/// The first column of a projection is the eigenvector of an eigenvalue that
/// no other exceeds.
pub proof fn lemma_first_component_largest(
    values: Seq<u64>,
    vectors: Grid,
    order: Seq<usize>,
    n_components: nat,
    projection: Grid,
)
    requires
        is_ranking(values, order),
        is_projection(vectors, order, n_components, projection),
        1 <= n_components,
    ensures
        forall|q: int|
            0 <= q < values.len() ==> order_key(#[trigger] values[q]) <= order_key(
                values[order[0] as int],
            ),
        forall|i: int|
            0 <= i < vectors.rows ==> #[trigger] projection.at(i, 0) == vectors.at(
                i,
                order[0] as int,
            ),
{
    lemma_ranking_descends(values, order);
}

/// Column `j` of `projection` is column `c` of `vectors`.
pub open spec fn is_column_of(vectors: Grid, c: int, projection: Grid, j: int) -> bool {
    forall|i: int| 0 <= i < vectors.rows ==> #[trigger] projection.at(i, j) == vectors.at(i, c)
}

/// Column `c` of `vectors` is one of the columns of `projection`.
pub open spec fn keeps_column(vectors: Grid, c: int, projection: Grid) -> bool {
    exists|j: int| 0 <= j < projection.cols && is_column_of(vectors, c, projection, j)
}

/// A projection onto as many components as there are eigenpairs drops no
/// eigenvector: each column of `vectors` is one of its columns.
pub proof fn lemma_full_projection_keeps_columns(
    values: Seq<u64>,
    vectors: Grid,
    order: Seq<usize>,
    projection: Grid,
)
    requires
        is_ranking(values, order),
        is_projection(vectors, order, values.len(), projection),
    ensures
        forall|c: int| 0 <= c < values.len() ==> #[trigger] keeps_column(vectors, c, projection),
{
    assert forall|c: int| 0 <= c < values.len() implies #[trigger] keeps_column(
        vectors,
        c,
        projection,
    ) by {
        assert(occurs(order, c));
        let w = choose|i: int| 0 <= i < order.len() && order[i] == c;
        assert(is_column_of(vectors, c, projection, w));
    }
}

} // verus!
