use pnn_core::types::{
    InferenceMethod, ModelError, PnnModel, SamplerConfig, DEFAULT_BETA_SIGMA_BITS, DEFAULT_BETA_STEP_BITS,
};

fn rows(values: &[&[f64]]) -> Vec<Vec<u64>> {
    values.iter().map(|r| r.iter().map(|x| x.to_bits()).collect()).collect()
}

fn three_point_model() -> PnnModel {
    PnnModel::new(rows(&[&[1.0, 2.0], &[3.0, 4.0], &[5.0, 6.0]]), vec![0, 1, 0], 2, vec![1, 2]).unwrap()
}

#[test]
fn new_stores_all_fields_correctly() {
    let m = three_point_model();
    assert_eq!(m.n_train(), 3);
    assert_eq!(m.n_features(), 2);
    assert_eq!(m.n_classes, 2);
    assert_eq!(m.k_values, vec![1, 2]);
    assert_eq!(m.k_max(), 2);
}

#[test]
fn new_sorts_k_values_ascending() {
    let m = PnnModel::new(vec![vec![0.0f64.to_bits()]; 5], vec![0, 1, 0, 1, 0], 2, vec![3, 1, 2]).unwrap();
    assert_eq!(m.k_values, vec![1, 2, 3]);
}

#[test]
fn new_deduplicates_k_values() {
    let m = PnnModel::new(vec![vec![0.0f64.to_bits()]; 5], vec![0, 1, 0, 1, 0], 2, vec![1, 1, 2, 2, 3]).unwrap();
    assert_eq!(m.k_values, vec![1, 2, 3]);
}

#[test]
fn k_max_equals_largest_candidate() {
    let m = PnnModel::new(vec![vec![0.0f64.to_bits()]; 5], vec![0, 0, 1, 1, 0], 2, vec![1, 4]).unwrap();
    assert_eq!(m.k_max(), 4);
}

#[test]
fn k_equals_n_train_minus_one_is_valid() {
    let n_train = 4;
    let result = PnnModel::new(vec![vec![0.0f64.to_bits()]; n_train], vec![0, 1, 0, 1], 2, vec![n_train - 1]);
    assert!(result.is_ok(), "k = n_train-1 should be valid");
}

#[test]
fn error_empty_training_data() {
    let err = PnnModel::new(vec![], vec![], 2, vec![1]).unwrap_err();
    assert_eq!(err, ModelError::EmptyTrainingData);
}

#[test]
fn error_empty_labels() {
    let err = PnnModel::new(rows(&[&[1.0], &[2.0]]), vec![], 2, vec![1]).unwrap_err();
    assert_eq!(err, ModelError::EmptyLabels);
}

#[test]
fn error_length_mismatch() {
    let err = PnnModel::new(rows(&[&[1.0], &[2.0], &[3.0]]), vec![0, 1], 2, vec![1]).unwrap_err();
    assert_eq!(err, ModelError::LengthMismatch { n_samples: 3, n_labels: 2 });
}

#[test]
fn error_empty_feature_vector_first_row() {
    let err = PnnModel::new(rows(&[&[], &[1.0]]), vec![0, 1], 2, vec![1]).unwrap_err();
    assert_eq!(err, ModelError::EmptyFeatureVector { row_index: 0 });
}

#[test]
fn error_empty_feature_vector_later_row() {
    let err = PnnModel::new(rows(&[&[1.0], &[]]), vec![0, 1], 2, vec![1]).unwrap_err();
    assert_eq!(err, ModelError::EmptyFeatureVector { row_index: 1 });
}

#[test]
fn error_inconsistent_feature_dimensions() {
    let err = PnnModel::new(rows(&[&[1.0, 2.0], &[3.0]]), vec![0, 1], 2, vec![1]).unwrap_err();
    assert_eq!(err, ModelError::InconsistentFeatureDimensions { expected: 2, found: 1, row_index: 1 });
}

#[test]
fn error_invalid_class_count_zero() {
    let err = PnnModel::new(rows(&[&[1.0], &[2.0]]), vec![0, 0], 0, vec![1]).unwrap_err();
    assert_eq!(err, ModelError::InvalidClassCount { n_classes: 0 });
}

#[test]
fn error_empty_k_values() {
    let err = PnnModel::new(rows(&[&[1.0], &[2.0]]), vec![0, 1], 2, vec![]).unwrap_err();
    assert_eq!(err, ModelError::EmptyKValues);
}

#[test]
fn error_k_value_zero() {
    let err = PnnModel::new(rows(&[&[1.0], &[2.0], &[3.0]]), vec![0, 1, 0], 2, vec![0]).unwrap_err();
    assert_eq!(err, ModelError::InvalidKValue { k: 0, n_train: 3 });
}

#[test]
fn error_k_equals_n_train() {
    let err = PnnModel::new(vec![vec![0.0f64.to_bits()]; 3], vec![0, 1, 0], 2, vec![3]).unwrap_err();
    assert_eq!(err, ModelError::InvalidKValue { k: 3, n_train: 3 });
}

#[test]
fn error_k_exceeds_n_train() {
    let err = PnnModel::new(vec![vec![0.0f64.to_bits()]; 3], vec![0, 1, 0], 2, vec![5]).unwrap_err();
    assert_eq!(err, ModelError::InvalidKValue { k: 5, n_train: 3 });
}

#[test]
fn error_label_out_of_range() {
    let err = PnnModel::new(vec![vec![0.0f64.to_bits()]; 3], vec![0, 1, 2], 2, vec![1, 2]).unwrap_err();
    assert_eq!(err, ModelError::LabelOutOfRange { label: 2, n_classes: 2, row_index: 2 });
}

#[test]
fn error_smallest_bad_k_is_reported() {
    let err = PnnModel::new(vec![vec![0.0f64.to_bits()]; 3], vec![0, 1, 0], 2, vec![7, 1, 4]).unwrap_err();
    assert_eq!(err, ModelError::InvalidKValue { k: 4, n_train: 3 });
}

#[test]
fn display_empty_training_data() {
    assert!(ModelError::EmptyTrainingData.message().contains("empty"));
}

#[test]
fn display_length_mismatch_shows_both_counts() {
    let msg = ModelError::LengthMismatch { n_samples: 5, n_labels: 3 }.message();
    assert!(msg.contains('5') && msg.contains('3'));
}

#[test]
fn display_invalid_k_value_shows_k_and_n_train() {
    let msg = ModelError::InvalidKValue { k: 7, n_train: 4 }.message();
    assert!(msg.contains('7') && msg.contains('4'));
}

#[test]
fn display_label_out_of_range_shows_label() {
    let msg = ModelError::LabelOutOfRange { label: 9, n_classes: 3, row_index: 0 }.message();
    assert!(msg.contains('9'));
}

#[test]
fn model_error_messages_are_exact() {
    assert_eq!(ModelError::EmptyTrainingData.message(), "training data must not be empty");
    assert_eq!(ModelError::EmptyLabels.message(), "labels must not be empty");
    assert_eq!(
        ModelError::LengthMismatch { n_samples: 5, n_labels: 3 }.message(),
        "training sample count (5) does not match label count (3)"
    );
    assert_eq!(ModelError::EmptyFeatureVector { row_index: 12 }.message(), "feature vector at row 12 must not be empty");
    assert_eq!(
        ModelError::InconsistentFeatureDimensions { expected: 2, found: 1, row_index: 1 }.message(),
        "feature vector at row 1 has 1 columns, expected 2"
    );
    assert_eq!(ModelError::InvalidClassCount { n_classes: 0 }.message(), "n_classes must be > 0, got 0");
    assert_eq!(ModelError::EmptyKValues.message(), "k_values must not be empty");
    assert_eq!(ModelError::InvalidKValue { k: 7, n_train: 4 }.message(), "k must be in 1..=4, got 7");
    assert_eq!(
        ModelError::LabelOutOfRange { label: 9, n_classes: 3, row_index: 0 }.message(),
        "label value 9 at row 0 exceeds class range 0..2"
    );
}

#[test]
fn sampler_config_default_uses_hybrid_method() {
    assert_eq!(SamplerConfig::default().method, InferenceMethod::Hybrid);
}

#[test]
fn sampler_config_default_has_positive_parameters() {
    let cfg = SamplerConfig::default();
    assert!(cfg.n_samples > 0);
    assert!(cfg.thinning >= 1);
    assert!(f64::from_bits(cfg.beta_step) > 0.0);
    assert!(f64::from_bits(cfg.beta_sigma) > 0.0);
}

#[test]
fn sampler_config_default_seed_is_none() {
    assert_eq!(SamplerConfig::default().seed, None);
}

#[test]
fn default_beta_constants_are_the_documented_doubles() {
    assert_eq!(f64::from_bits(DEFAULT_BETA_STEP_BITS), 0.3);
    assert_eq!(f64::from_bits(DEFAULT_BETA_SIGMA_BITS), 5.0);
    let cfg = SamplerConfig::default();
    assert_eq!((cfg.n_samples, cfg.burn_in, cfg.thinning), (1000, 500, 1));
}
