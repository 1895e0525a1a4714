use pnn_core::precompute::build_count_tensor;
use pnn_core::types::PnnModel;

fn rows(values: &[&[f64]]) -> Vec<Vec<u64>> {
    values.iter().map(|r| r.iter().map(|x| x.to_bits()).collect()).collect()
}

fn distance_keys(points: &[&[f64]]) -> Vec<Vec<u64>> {
    points
        .iter()
        .map(|a| {
            points
                .iter()
                .map(|b| a.iter().zip(b.iter()).map(|(x, y)| (x - y) * (x - y)).sum::<f64>().to_bits())
                .collect()
        })
        .collect()
}

#[test]
fn build_count_tensor_matches_worked_example() {
    let pts: &[&[f64]] = &[&[1.0, 2.0], &[5.0, 3.0], &[2.0, 1.0]];
    let model = PnnModel::new(rows(pts), vec![0, 1, 0], 2, vec![1, 2]).expect("valid model");
    let ct = build_count_tensor(&model, &distance_keys(pts));
    assert_eq!(ct.len(), 3);
    assert_eq!(ct[0].len(), 2);
    assert_eq!(ct[0][0].len(), 2);
    assert_eq!(ct[0][0], vec![1, 0], "i=0 k=1");
    assert_eq!(ct[0][1], vec![1, 1], "i=0 k=2");
    assert_eq!(ct[1][0], vec![1, 0], "i=1 k=1");
    assert_eq!(ct[1][1], vec![2, 0], "i=1 k=2");
    assert_eq!(ct[2][0], vec![1, 0], "i=2 k=1");
    assert_eq!(ct[2][1], vec![1, 1], "i=2 k=2");
}

#[test]
fn build_count_tensor_non_contiguous_k_values() {
    let pts: &[&[f64]] = &[&[0.0], &[1.0], &[2.0], &[3.0]];
    let model = PnnModel::new(rows(pts), vec![0, 1, 0, 1], 2, vec![1, 3]).expect("valid model");
    let ct = build_count_tensor(&model, &distance_keys(pts));
    assert_eq!(ct.len(), 4);
    assert_eq!(ct[0].len(), 2);
    assert_eq!(ct[0][0], vec![0, 1], "i=0 k=1");
    assert_eq!(ct[0][1], vec![1, 2], "i=0 k=3");
    assert_eq!(ct[1][0], vec![1, 0], "i=1 k=1");
    assert_eq!(ct[1][1], vec![2, 1], "i=1 k=3");
    assert_eq!(ct[2][0], vec![0, 1], "i=2 k=1");
    assert_eq!(ct[2][1], vec![1, 2], "i=2 k=3");
    assert_eq!(ct[3][0], vec![1, 0], "i=3 k=1");
    assert_eq!(ct[3][1], vec![2, 1], "i=3 k=3");
}

#[test]
fn build_count_tensor_tie_breaking_uses_lower_index() {
    let pts: &[&[f64]] = &[&[0.0], &[1.0], &[2.0]];
    let model = PnnModel::new(rows(pts), vec![0, 1, 0], 2, vec![1]).expect("valid model");
    let ct = build_count_tensor(&model, &distance_keys(pts));
    assert_eq!(ct[1][0], vec![1, 0]);
}

#[test]
fn build_count_tensor_tie_breaking_observed_via_counts() {
    let pts: &[&[f64]] = &[&[0.0], &[1.0], &[2.0]];
    let model = PnnModel::new(rows(pts), vec![0, 1, 2], 3, vec![1]).expect("valid model");
    let ct = build_count_tensor(&model, &distance_keys(pts));
    assert_eq!(ct[1][0], vec![1, 0, 0], "tie broken by lower index");
}

#[test]
fn build_count_tensor_count_totals_equal_k() {
    let pts: &[&[f64]] = &[&[1.0, 2.0], &[5.0, 3.0], &[2.0, 1.0]];
    let model = PnnModel::new(rows(pts), vec![0, 1, 0], 2, vec![1, 2]).expect("valid model");
    let k_values = model.k_values.clone();
    let ct = build_count_tensor(&model, &distance_keys(pts));
    for i in 0..ct.len() {
        for (ki, &k) in k_values.iter().enumerate() {
            let total: usize = ct[i][ki].iter().sum();
            assert_eq!(total, k, "counts at i={i} ki={ki} must sum to k={k}");
        }
    }
}
