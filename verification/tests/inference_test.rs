use pnn_core::inference::{make_rng, propose_k_index, ChainRecorder};
use pnn_core::types::{InferenceMethod, SamplerConfig, SamplerResult};

fn config(n_samples: usize, burn_in: usize, thinning: usize) -> SamplerConfig {
    SamplerConfig {
        method: InferenceMethod::Hybrid,
        n_samples,
        burn_in,
        thinning,
        beta_step: 0.3f64.to_bits(),
        beta_sigma: 5.0f64.to_bits(),
        seed: Some(42),
    }
}

/// Records a run whose iteration `s` holds k index `s % n`, beta `s + 1` and acceptance
/// `accept(s)`.
fn run(cfg: &SamplerConfig, k_values: &Vec<usize>, accept: fn(usize) -> bool) -> SamplerResult {
    let mut rec = ChainRecorder::new(k_values, cfg);
    let mut s = 0usize;
    while !rec.is_done() {
        rec.record(s % k_values.len(), ((s + 1) as f64).to_bits(), accept(s));
        s += 1;
    }
    rec.finish()
}

#[test]
fn chain_length_equals_n_samples() {
    let r = run(&config(50, 10, 1), &vec![1, 2, 3], |_| true);
    assert_eq!(r.chain.len(), 50);
}

#[test]
fn chain_length_respects_thinning() {
    let r = run(&config(10, 5, 3), &vec![1, 2], |_| false);
    assert_eq!(r.chain.len(), 10);
    assert_eq!(r.total_iters, 5 + 10 * 3);
    let kept: Vec<f64> = r.chain.iter().map(|d| f64::from_bits(d.beta)).collect();
    let expected: Vec<f64> = (0..10).map(|q| (5 + 3 * q + 1) as f64).collect();
    assert_eq!(kept, expected);
}

#[test]
fn zero_n_samples_gives_empty_chain() {
    let r = run(&config(0, 7, 2), &vec![1, 2], |_| true);
    assert!(r.chain.is_empty());
    assert_eq!(r.burn_in_chain.len(), 7);
    assert_eq!(r.n_accepted, 0);
}

#[test]
fn burn_in_chain_is_every_burn_in_iteration() {
    let r = run(&config(4, 6, 5), &vec![2, 4, 8], |_| true);
    assert_eq!(r.burn_in_chain.len(), 6);
    for (i, d) in r.burn_in_chain.iter().enumerate() {
        assert_eq!(f64::from_bits(d.beta), (i + 1) as f64);
        assert_eq!(d.k_index, i % 3);
        assert_eq!(d.k, [2, 4, 8][i % 3]);
    }
}

#[test]
fn acceptances_count_only_after_burn_in() {
    let r = run(&config(5, 5, 1), &vec![1], |_| true);
    assert_eq!(r.n_accepted, 5);
    let r = run(&config(3, 2, 4), &vec![1], |s| s % 2 == 0);
    assert_eq!(r.n_accepted, 6);
    assert!(r.n_accepted <= 3 * 4);
}

#[test]
fn n_accepted_may_exceed_n_samples_with_thinning() {
    let r = run(&config(2, 0, 3), &vec![1], |_| true);
    assert_eq!(r.n_accepted, 6);
    assert!(r.n_accepted > r.chain.len());
}

#[test]
fn recorder_starts_at_median_candidate() {
    let k_values = vec![1, 2, 3, 4, 5];
    let rec = ChainRecorder::new(&k_values, &config(1, 1, 1));
    assert_eq!(rec.initial_k_index(), 2);
    assert_eq!(rec.total_iters(), 2);
    assert!(!rec.is_done());
}

#[test]
fn seeded_proposals_are_reproducible_and_in_range() {
    let mut a = make_rng(Some(11)).unwrap();
    let mut b = make_rng(Some(11)).unwrap();
    let xs: Vec<usize> = (0..50).map(|_| propose_k_index(&mut a, 7)).collect();
    let ys: Vec<usize> = (0..50).map(|_| propose_k_index(&mut b, 7)).collect();
    assert_eq!(xs, ys);
    assert!(xs.iter().all(|&x| x < 7));
    assert!(xs.iter().any(|&x| x != xs[0]));
    let mut c = make_rng(None).unwrap();
    assert!(propose_k_index(&mut c, 3) < 3);
    assert_eq!(propose_k_index(&mut c, 1), 0);
}
