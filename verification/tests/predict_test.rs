use pnn_core::predict::{argmax, batch_sorted_neighbors, extract_class_counts};

fn keys(test: &[&[f64]], train: &[&[f64]]) -> Vec<Vec<u64>> {
    test.iter()
        .map(|a| {
            train
                .iter()
                .map(|b| a.iter().zip(b.iter()).map(|(x, y)| (x - y) * (x - y)).sum::<f64>().to_bits())
                .collect()
        })
        .collect()
}

fn probability_keys(p: &[f64]) -> Vec<u64> {
    p.iter().map(|x| x.to_bits()).collect()
}

#[test]
fn argmax_returns_index_of_maximum() {
    assert_eq!(argmax(&probability_keys(&[0.1, 0.9, 0.3])), 1);
    assert_eq!(argmax(&probability_keys(&[0.9, 0.1, 0.3])), 0);
    assert_eq!(argmax(&probability_keys(&[0.1, 0.3, 0.9])), 2);
}

#[test]
fn argmax_tie_returns_first_index() {
    assert_eq!(argmax(&probability_keys(&[0.5, 0.5])), 0);
    assert_eq!(argmax(&probability_keys(&[0.3, 0.3, 0.3])), 0);
}

#[test]
fn argmax_single_element() {
    assert_eq!(argmax(&probability_keys(&[0.7])), 0);
}

#[test]
fn argmax_compares_doubles_not_bit_patterns() {
    assert_eq!(argmax(&probability_keys(&[-1.0, 0.5])), 1);
    assert_eq!(argmax(&probability_keys(&[-3.0, -1.0, -2.0])), 1);
    assert_eq!(argmax(&probability_keys(&[-0.0, 0.0])), 0);
    assert_eq!(argmax(&probability_keys(&[f64::NAN, 0.2, 0.1])), 1);
    assert_eq!(argmax(&probability_keys(&[f64::NEG_INFINITY, f64::NEG_INFINITY])), 0);
    assert_eq!(argmax(&probability_keys(&[f64::NAN, f64::NEG_INFINITY, -5.0])), 2);
}

#[test]
fn argmax_of_nothing_is_zero() {
    assert_eq!(argmax(&vec![]), 0);
}

#[test]
fn batch_sorted_neighbors_hand_checked() {
    let x: &[&[f64]] = &[&[1.0, 2.0], &[5.0, 3.0], &[2.0, 1.0]];
    let result = batch_sorted_neighbors(&keys(x, x), 2);
    assert_eq!(result[0], vec![0, 2]);
    assert_eq!(result[1], vec![1, 2]);
    assert_eq!(result[2], vec![2, 0]);
}

#[test]
fn batch_sorted_neighbors_k_max_limits_output_length() {
    let x_test: &[&[f64]] = &[&[0.0]];
    let x_train: &[&[f64]] = &[&[1.0], &[2.0], &[3.0]];
    let result = batch_sorted_neighbors(&keys(x_test, x_train), 2);
    assert_eq!(result[0].len(), 2);
}

#[test]
fn batch_sorted_neighbors_tie_break_by_lower_index() {
    let x_test: &[&[f64]] = &[&[1.0]];
    let x_train: &[&[f64]] = &[&[0.0], &[2.0]];
    let result = batch_sorted_neighbors(&keys(x_test, x_train), 2);
    assert_eq!(result[0], vec![0, 1]);
}

#[test]
fn batch_sorted_neighbors_caps_at_training_size() {
    let x_test: &[&[f64]] = &[&[0.0], &[10.0]];
    let x_train: &[&[f64]] = &[&[1.0], &[9.0]];
    let result = batch_sorted_neighbors(&keys(x_test, x_train), 5);
    assert_eq!(result, vec![vec![0, 1], vec![1, 0]]);
}

#[test]
fn extract_class_counts_prefix_scan() {
    let y_train = vec![0, 1, 1, 2];
    let sorted = vec![3, 1, 0, 2];
    assert_eq!(extract_class_counts(&sorted, 1, &y_train, 3), vec![0, 0, 1]);
    assert_eq!(extract_class_counts(&sorted, 3, &y_train, 3), vec![1, 1, 1]);
    assert_eq!(extract_class_counts(&sorted, 10, &y_train, 3), vec![1, 2, 1]);
    assert_eq!(extract_class_counts(&sorted, 0, &y_train, 3), vec![0, 0, 0]);
}

#[test]
fn shorter_neighbour_lists_are_prefixes_of_longer_ones() {
    let x_test: &[&[f64]] = &[&[0.4], &[2.6]];
    let x_train: &[&[f64]] = &[&[0.0], &[1.0], &[2.0], &[3.0], &[0.5]];
    let d = keys(x_test, x_train);
    let long = batch_sorted_neighbors(&d, 5);
    for k in 0..=5 {
        let short = batch_sorted_neighbors(&d, k);
        for t in 0..2 {
            assert_eq!(short[t], long[t][..k].to_vec());
        }
    }
    assert_eq!(long[0], vec![4, 0, 1, 2, 3]);
}
