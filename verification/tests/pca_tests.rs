use pca_metrics::error::{Error, ErrorKind};
use pca_metrics::matrix::Matrix;
use pca_metrics::pca::{check_samples, Pca};

fn bits(values: &[f64]) -> Vec<u64> {
    values.iter().map(|x| x.to_bits()).collect()
}

fn numbers(m: Matrix) -> Vec<f64> {
    m.into_cells().into_iter().map(f64::from_bits).collect()
}

#[test]
fn covariance_needs_two_samples() {
    assert_eq!(check_samples(2), Ok(()));
    assert_eq!(check_samples(100), Ok(()));
    assert_eq!(check_samples(1), Err(Error::TooFewSamples { n_samples: 1 }));
    assert_eq!(check_samples(0), Err(Error::TooFewSamples { n_samples: 0 }));
    assert_eq!(check_samples(1).unwrap_err().kind(), ErrorKind::InvalidInput);
}

#[test]
fn an_accepted_analysis_keeps_its_sizes() {
    let pca = Pca::new(10, 3, 2).unwrap();
    assert_eq!(pca.n_samples(), 10);
    assert_eq!(pca.n_features(), 3);
    assert_eq!(pca.n_components(), 2);
    assert!(Pca::new(2, 1, 1).is_ok());
    assert!(Pca::new(10, 3, 3).is_ok());
}

#[test]
fn more_components_than_features_are_invalid_input() {
    let r = Pca::new(10, 3, 4);
    assert_eq!(r, Err(Error::ComponentCount { n_components: 4, n_features: 3 }));
    assert_eq!(r.unwrap_err().kind(), ErrorKind::InvalidInput);
    let r = Pca::new(10, 0, 1);
    assert_eq!(r, Err(Error::ComponentCount { n_components: 1, n_features: 0 }));
}

#[test]
fn no_components_are_invalid_input() {
    let r = Pca::new(10, 3, 0);
    assert_eq!(r, Err(Error::ComponentCount { n_components: 0, n_features: 3 }));
    assert_eq!(r.unwrap_err().kind(), ErrorKind::InvalidInput);
}

#[test]
fn too_few_samples_are_reported_first() {
    assert_eq!(Pca::new(1, 3, 2), Err(Error::TooFewSamples { n_samples: 1 }));
    assert_eq!(Pca::new(0, 3, 2), Err(Error::TooFewSamples { n_samples: 0 }));
    assert_eq!(Pca::new(1, 3, 4), Err(Error::TooFewSamples { n_samples: 1 }));
    assert_eq!(Pca::new(1, 3, 4).unwrap_err().kind(), ErrorKind::InvalidInput);
}

#[test]
fn the_projection_holds_the_leading_eigenvectors() {
    let pca = Pca::new(4, 3, 2).unwrap();
    let values = bits(&[0.5, 4.0, 1.5]);
    let vectors =
        Matrix::from_cells(3, 3, bits(&[11.0, 12.0, 13.0, 21.0, 22.0, 23.0, 31.0, 32.0, 33.0]))
            .unwrap();
    let projection = pca.projection(&values, &vectors).unwrap();
    assert_eq!(projection.rows(), 3);
    assert_eq!(projection.cols(), 2);
    assert_eq!(numbers(projection), vec![12.0, 13.0, 22.0, 23.0, 32.0, 33.0]);
}

#[test]
fn the_first_component_has_the_largest_eigenvalue() {
    let pca = Pca::new(5, 2, 1).unwrap();
    let vectors = Matrix::from_cells(2, 2, bits(&[1.0, 0.0, 0.0, 1.0])).unwrap();
    let projection = pca.projection(&bits(&[0.25, 9.0]), &vectors).unwrap();
    assert_eq!(numbers(projection), vec![0.0, 1.0]);
    let projection = pca.projection(&bits(&[9.0, 0.25]), &vectors).unwrap();
    assert_eq!(numbers(projection), vec![1.0, 0.0]);
}

#[test]
fn a_full_projection_keeps_every_eigenvector() {
    let pca = Pca::new(4, 3, 3).unwrap();
    let values = bits(&[0.5, 4.0, 1.5]);
    let vectors =
        Matrix::from_cells(3, 3, bits(&[11.0, 12.0, 13.0, 21.0, 22.0, 23.0, 31.0, 32.0, 33.0]))
            .unwrap();
    let projection = pca.projection(&values, &vectors).unwrap();
    assert_eq!(projection.rows(), 3);
    assert_eq!(projection.cols(), 3);
    assert_eq!(
        numbers(projection),
        vec![12.0, 13.0, 11.0, 22.0, 23.0, 21.0, 32.0, 33.0, 31.0]
    );
}

#[test]
fn equal_eigenvalues_keep_their_eigenvectors_in_order() {
    let pca = Pca::new(4, 3, 2).unwrap();
    let vectors =
        Matrix::from_cells(3, 3, bits(&[11.0, 12.0, 13.0, 21.0, 22.0, 23.0, 31.0, 32.0, 33.0]))
            .unwrap();
    let projection = pca.projection(&bits(&[2.0, 1.0, 2.0]), &vectors).unwrap();
    assert_eq!(numbers(projection), vec![11.0, 13.0, 21.0, 23.0, 31.0, 33.0]);
}

#[test]
fn a_decomposition_of_another_shape_is_a_numeric_failure() {
    let pca = Pca::new(4, 3, 2).unwrap();
    let square =
        Matrix::from_cells(3, 3, bits(&[11.0, 12.0, 13.0, 21.0, 22.0, 23.0, 31.0, 32.0, 33.0]))
            .unwrap();
    let r = pca.projection(&bits(&[1.0, 2.0]), &square);
    assert_eq!(
        r,
        Err(Error::ShapeMismatch { rows: 2, cols: 1, expected_rows: 3, expected_cols: 1 })
    );
    assert_eq!(r.unwrap_err().kind(), ErrorKind::NumericFailure);
    let wide = Matrix::from_cells(2, 3, bits(&[11.0, 12.0, 13.0, 21.0, 22.0, 23.0])).unwrap();
    let r = pca.projection(&bits(&[1.0, 2.0, 3.0]), &wide);
    assert_eq!(
        r,
        Err(Error::ShapeMismatch { rows: 2, cols: 3, expected_rows: 3, expected_cols: 3 })
    );
    let tall = Matrix::from_cells(3, 2, bits(&[11.0, 12.0, 21.0, 22.0, 31.0, 32.0])).unwrap();
    let r = pca.projection(&bits(&[1.0, 2.0, 3.0]), &tall);
    assert_eq!(
        r,
        Err(Error::ShapeMismatch { rows: 3, cols: 2, expected_rows: 3, expected_cols: 3 })
    );
}

#[test]
fn the_number_of_eigenvalues_is_looked_at_first() {
    let pca = Pca::new(4, 3, 2).unwrap();
    let wide = Matrix::from_cells(2, 3, bits(&[11.0, 12.0, 13.0, 21.0, 22.0, 23.0])).unwrap();
    let r = pca.projection(&bits(&[f64::NAN]), &wide);
    assert_eq!(
        r,
        Err(Error::ShapeMismatch { rows: 1, cols: 1, expected_rows: 3, expected_cols: 1 })
    );
}

#[test]
fn a_nan_eigenvalue_fails_the_projection() {
    let pca = Pca::new(4, 2, 1).unwrap();
    let vectors = Matrix::from_cells(2, 2, bits(&[1.0, 0.0, 0.0, 1.0])).unwrap();
    let r = pca.projection(&bits(&[1.0, f64::NAN]), &vectors);
    assert_eq!(r, Err(Error::NanEigenvalue { index: 1 }));
    assert_eq!(r.unwrap_err().kind(), ErrorKind::NumericFailure);
}

#[test]
fn scores_have_a_row_for_each_sample_and_a_column_for_each_component() {
    let pca = Pca::new(4, 3, 2).unwrap();
    let cells = bits(&[1.0, 2.0, 3.0, 4.0, 5.0, 6.0, 7.0, 8.0]);
    let scores = pca.scores(Matrix::from_cells(4, 2, cells.clone()).unwrap()).unwrap();
    assert_eq!(scores.rows(), 4);
    assert_eq!(scores.cols(), 2);
    assert_eq!(scores.into_cells(), cells);
}

#[test]
fn scores_of_another_shape_are_a_numeric_failure() {
    let pca = Pca::new(4, 3, 2).unwrap();
    let cells = bits(&[1.0, 2.0, 3.0, 4.0, 5.0, 6.0, 7.0, 8.0]);
    let r = pca.scores(Matrix::from_cells(2, 4, cells).unwrap());
    assert_eq!(
        r,
        Err(Error::ShapeMismatch { rows: 2, cols: 4, expected_rows: 4, expected_cols: 2 })
    );
    assert_eq!(r.unwrap_err().kind(), ErrorKind::NumericFailure);
    let r = pca.scores(Matrix::from_cells(4, 3, vec![0; 12]).unwrap());
    assert_eq!(
        r,
        Err(Error::ShapeMismatch { rows: 4, cols: 3, expected_rows: 4, expected_cols: 2 })
    );
}

#[test]
fn each_failure_has_its_kind() {
    assert_eq!(Error::LengthMismatch { left: 1, right: 2 }.kind(), ErrorKind::InvalidInput);
    assert_eq!(Error::TooFewSamples { n_samples: 1 }.kind(), ErrorKind::InvalidInput);
    assert_eq!(
        Error::ComponentCount { n_components: 3, n_features: 2 }.kind(),
        ErrorKind::InvalidInput
    );
    assert_eq!(Error::NoConvergence.kind(), ErrorKind::NumericFailure);
    assert_eq!(Error::NanEigenvalue { index: 0 }.kind(), ErrorKind::NumericFailure);
    assert_eq!(
        Error::ShapeMismatch { rows: 1, cols: 2, expected_rows: 2, expected_cols: 2 }.kind(),
        ErrorKind::NumericFailure
    );
}
