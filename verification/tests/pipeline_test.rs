use pnn_core::pipeline::{
    build_model, clamp_k_values, count_misclassified, infer_n_classes, require_training_rows,
};
use pnn_core::types::ModelError;

fn rows(values: &[&[f64]]) -> Vec<Vec<u64>> {
    values.iter().map(|r| r.iter().map(|x| x.to_bits()).collect()).collect()
}

#[test]
fn class_count_is_largest_label_plus_one() {
    assert_eq!(infer_n_classes(&vec![0, 1, 1]), 2);
    assert_eq!(infer_n_classes(&vec![4, 0]), 5);
    assert_eq!(infer_n_classes(&vec![]), 1);
    assert_eq!(infer_n_classes(&vec![0]), 1);
}

#[test]
fn candidate_ks_are_clamped_into_range() {
    assert_eq!(clamp_k_values(&vec![0, 1, 2, 5, 9], 4), vec![1, 1, 2, 3, 3]);
    assert_eq!(clamp_k_values(&vec![0, 3], 1), vec![1, 1]);
    assert_eq!(clamp_k_values(&vec![7], 0), vec![1]);
}

#[test]
fn misclassifications_are_counted() {
    assert_eq!(count_misclassified(&vec![0, 1, 1], &vec![0, 0, 1]), 1);
    assert_eq!(count_misclassified(&vec![0, 1], &vec![1, 0]), 2);
    assert_eq!(count_misclassified(&vec![0, 1], &vec![0]), 0);
    assert_eq!(count_misclassified(&vec![], &vec![]), 0);
}

#[test]
fn training_rows_are_required() {
    assert_eq!(require_training_rows(0), Err("training CSV has no rows".to_string()));
    assert_eq!(require_training_rows(3), Ok(()));
}

#[test]
fn model_is_built_with_implied_classes_and_clamped_ks() {
    let m = build_model(rows(&[&[0.0, 0.0], &[1.0, 0.0], &[0.0, 1.0]]), vec![0, 1, 1], &vec![9, 1]).unwrap();
    assert_eq!(m.n_classes, 2);
    assert_eq!(m.k_values, vec![1, 2]);
    let err = build_model(rows(&[&[0.0]]), vec![0], &vec![3]).unwrap_err();
    assert_eq!(err, ModelError::InvalidKValue { k: 1, n_train: 1 });
    let err = build_model(rows(&[&[0.0], &[1.0], &[]]), vec![0, 2, 1], &vec![1]).unwrap_err();
    assert_eq!(err, ModelError::EmptyFeatureVector { row_index: 2 });
}
