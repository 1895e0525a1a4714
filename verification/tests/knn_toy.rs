use pnn_core::double::{greater, is_finite, is_positive};
use pnn_core::knn::{k_nearest, validate_inputs, KnnError};

fn rows(values: &[&[f64]]) -> Vec<Vec<u64>> {
    values.iter().map(|r| r.iter().map(|x| x.to_bits()).collect()).collect()
}

fn keys(data: &[&[f64]], query: &[f64]) -> Vec<u64> {
    data.iter()
        .map(|r| r.iter().zip(query.iter()).map(|(a, b)| (a - b) * (a - b)).sum::<f64>().to_bits())
        .collect()
}

#[test]
fn returns_expected_indices_for_hand_checked_five_point_example() {
    let data: &[&[f64]] = &[&[0.0, 0.0], &[1.0, 0.0], &[0.0, 1.0], &[1.0, 1.0], &[2.0, 2.0]];
    let query: [f64; 2] = [0.9, 0.8];
    let q: Vec<u64> = query.iter().map(|x| x.to_bits()).collect();
    let neighbors = k_nearest(&rows(data), &q, 3, &keys(data, &query)).expect("k_nearest should succeed");
    assert_eq!(neighbors, vec![3, 1, 2]);
}

#[test]
fn breaks_distance_ties_by_index_order() {
    let data: &[&[f64]] = &[&[0.0, 1.0], &[0.0, -1.0], &[1.0, 0.0], &[-1.0, 0.0]];
    let query: [f64; 2] = [0.0, 0.0];
    let q: Vec<u64> = query.iter().map(|x| x.to_bits()).collect();
    let neighbors = k_nearest(&rows(data), &q, 2, &keys(data, &query)).expect("k_nearest should succeed");
    assert_eq!(neighbors, vec![0, 1]);
}

#[test]
fn validation_errors_come_in_order() {
    let two = rows(&[&[0.0, 1.0], &[2.0, 3.0]]);
    let q = vec![0.0f64.to_bits(), 0.0f64.to_bits()];
    assert_eq!(validate_inputs(&vec![], &q, 1), Err(KnnError::EmptyData));
    assert_eq!(validate_inputs(&two, &vec![], 1), Err(KnnError::EmptyQuery));
    assert_eq!(validate_inputs(&two, &q, 0), Err(KnnError::InvalidK { k: 0, n_samples: 2 }));
    assert_eq!(validate_inputs(&two, &q, 3), Err(KnnError::InvalidK { k: 3, n_samples: 2 }));
    assert_eq!(validate_inputs(&rows(&[&[], &[1.0]]), &q, 1), Err(KnnError::EmptyFeatureVector { row_index: 0 }));
    assert_eq!(
        validate_inputs(&two, &vec![0.0f64.to_bits()], 1),
        Err(KnnError::QueryDimensionMismatch { expected: 2, found: 1 })
    );
    let nan_query = vec![0.0f64.to_bits(), f64::NAN.to_bits()];
    assert_eq!(
        validate_inputs(&two, &nan_query, 1),
        Err(KnnError::NonFiniteQueryValue { feature_index: 1, value: f64::NAN.to_bits() })
    );
    let ragged = rows(&[&[0.0, 1.0], &[2.0]]);
    assert_eq!(
        validate_inputs(&ragged, &q, 1),
        Err(KnnError::DataDimensionMismatch { expected: 2, found: 1, row_index: 1 })
    );
    let with_inf = rows(&[&[0.0, 1.0], &[2.0, f64::INFINITY]]);
    assert_eq!(
        validate_inputs(&with_inf, &q, 1),
        Err(KnnError::NonFiniteDataValue { row_index: 1, feature_index: 1, value: f64::INFINITY.to_bits() })
    );
    let with_empty_later = rows(&[&[0.0, 1.0], &[]]);
    assert_eq!(validate_inputs(&with_empty_later, &q, 1), Err(KnnError::EmptyFeatureVector { row_index: 1 }));
    assert_eq!(validate_inputs(&two, &q, 2), Ok(()));
}

#[test]
fn k_nearest_reports_validation_error() {
    let data = rows(&[&[0.0], &[1.0]]);
    let q = vec![0.5f64.to_bits()];
    let d = keys(&[&[0.0], &[1.0]], &[0.5]);
    assert_eq!(k_nearest(&data, &q, 5, &d), Err(KnnError::InvalidK { k: 5, n_samples: 2 }));
}

#[test]
fn double_predicates_follow_ieee() {
    for x in [0.0f64, 1.5, -2.0, 1e308, f64::MIN_POSITIVE] {
        assert!(is_finite(x.to_bits()));
    }
    for x in [f64::INFINITY, f64::NEG_INFINITY, f64::NAN] {
        assert!(!is_finite(x.to_bits()));
    }
    for x in [0.0f64, -0.0, -1.0, f64::NEG_INFINITY, -f64::MIN_POSITIVE, 0.3, 5.0, f64::INFINITY, f64::NAN, -f64::NAN] {
        assert_eq!(is_positive(x.to_bits()), x > 0.0, "{x}");
    }
    let all = [0.0f64, -0.0, -1.0, 2.5, f64::NEG_INFINITY, f64::INFINITY, f64::NAN, 1e-300, -1e300];
    for a in all {
        for b in all {
            assert_eq!(greater(a.to_bits(), b.to_bits()), a > b, "{a} > {b}");
        }
    }
}

#[test]
fn knn_error_messages_are_exact() {
    assert_eq!(KnnError::EmptyData.message(), "data must not be empty");
    assert_eq!(KnnError::EmptyQuery.message(), "query must not be empty");
    assert_eq!(KnnError::InvalidK { k: 5, n_samples: 2 }.message(), "k must be in 1..=2, got 5");
    assert_eq!(KnnError::EmptyFeatureVector { row_index: 3 }.message(), "feature vector at row 3 must not be empty");
    assert_eq!(
        KnnError::DataDimensionMismatch { expected: 2, found: 1, row_index: 4 }.message(),
        "feature vector at row 4 has 1 columns, expected 2"
    );
    assert_eq!(
        KnnError::QueryDimensionMismatch { expected: 2, found: 3 }.message(),
        "query has 3 columns, expected 2"
    );
    for v in [f64::NAN, f64::INFINITY, f64::NEG_INFINITY] {
        assert_eq!(
            KnnError::NonFiniteQueryValue { feature_index: 1, value: v.to_bits() }.message(),
            format!("query feature at index 1 must be finite, got {v}")
        );
        assert_eq!(
            KnnError::NonFiniteDataValue { row_index: 2, feature_index: 0, value: v.to_bits() }.message(),
            format!("data feature at row 2, index 0 must be finite, got {v}")
        );
    }
}
