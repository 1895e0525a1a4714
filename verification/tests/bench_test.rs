use pnn_core::bench::{k_nearest_for, k_nearest_iter, KnnError};

fn rows(values: &[&[f64]]) -> Vec<Vec<u64>> {
    values.iter().map(|r| r.iter().map(|x| x.to_bits()).collect()).collect()
}

fn keys(data: &[&[f64]], query: &[f64]) -> Vec<u64> {
    data.iter()
        .map(|r| r.iter().zip(query.iter()).map(|(a, b)| (a - b) * (a - b)).sum::<f64>().to_bits())
        .collect()
}

#[test]
fn both_searches_agree_on_a_hand_checked_example() {
    let data: &[&[f64]] = &[&[0.0, 0.0], &[1.0, 0.0], &[0.0, 1.0], &[1.0, 1.0], &[2.0, 2.0]];
    let query: [f64; 2] = [0.9, 0.8];
    let q: Vec<u64> = query.iter().map(|x| x.to_bits()).collect();
    let d = keys(data, &query);
    let a = k_nearest_iter(&rows(data), &q, 3, &d).unwrap();
    let b = k_nearest_for(&rows(data), &q, 3, &d).unwrap();
    assert_eq!(a, vec![3, 1, 2]);
    assert_eq!(a, b);
}

#[test]
fn ties_go_to_the_lower_index_in_both() {
    let data: &[&[f64]] = &[&[0.0, 1.0], &[0.0, -1.0], &[1.0, 0.0], &[-1.0, 0.0]];
    let query: [f64; 2] = [0.0, 0.0];
    let q: Vec<u64> = query.iter().map(|x| x.to_bits()).collect();
    let d = keys(data, &query);
    assert_eq!(k_nearest_iter(&rows(data), &q, 4, &d).unwrap(), vec![0, 1, 2, 3]);
    assert_eq!(k_nearest_for(&rows(data), &q, 4, &d).unwrap(), vec![0, 1, 2, 3]);
}

#[test]
fn light_input_checks() {
    let data = rows(&[&[0.0], &[1.0]]);
    let q = vec![0.0f64.to_bits()];
    let d = vec![0.0f64.to_bits(), 1.0f64.to_bits()];
    assert_eq!(k_nearest_iter(&vec![], &q, 1, &vec![]), Err(KnnError::DimensionMismatch));
    assert_eq!(k_nearest_for(&data, &vec![], 1, &d), Err(KnnError::DimensionMismatch));
    assert_eq!(k_nearest_for(&data, &q, 0, &d), Err(KnnError::InvalidK));
    assert_eq!(k_nearest_iter(&data, &q, 3, &d), Err(KnnError::InvalidK));
}
