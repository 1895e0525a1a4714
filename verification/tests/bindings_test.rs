use pnn_core::bindings::{build_config, build_runtime_config, optional_path_from_string, parse_method, resolve_k_values};
use pnn_core::pipeline::check_test_labels;
use pnn_core::types::InferenceMethod;

fn bits(x: f64) -> u64 {
    x.to_bits()
}

#[test]
fn resolve_k_values_obeys_precedence() {
    let from_values = resolve_k_values(Some(9), Some(vec![2, 4]), Some((3, 6))).unwrap();
    assert_eq!(from_values, vec![2, 4]);
    let from_range = resolve_k_values(Some(9), None, Some((3, 6))).unwrap();
    assert_eq!(from_range, vec![3, 4, 5, 6]);
    let from_single = resolve_k_values(Some(9), None, None).unwrap();
    assert_eq!(from_single, vec![9]);
    let from_default = resolve_k_values(None, None, None).unwrap();
    assert_eq!(from_default, vec![3]);
}

#[test]
fn resolve_k_values_errors() {
    assert_eq!(
        resolve_k_values(None, Some(vec![]), None).unwrap_err(),
        "invalid value for k_values: must supply at least one value"
    );
    assert_eq!(
        resolve_k_values(None, Some(vec![2, 0]), None).unwrap_err(),
        "invalid value in k_values: all values must be >= 1"
    );
    assert_eq!(resolve_k_values(None, None, Some((0, 4))).unwrap_err(), "invalid value for k_range: start must be >= 1");
    assert_eq!(
        resolve_k_values(None, None, Some((5, 2))).unwrap_err(),
        "invalid value for k_range: end (2) must be >= start (5)"
    );
    assert_eq!(resolve_k_values(Some(0), None, None).unwrap_err(), "invalid value for k: must be >= 1");
    assert_eq!(resolve_k_values(None, None, Some((4, 4))).unwrap(), vec![4]);
}

#[test]
fn parse_method_rejects_invalid_value() {
    let err = parse_method("bad").expect_err("invalid method should fail");
    assert!(err.contains("invalid value for method"));
    assert_eq!(err, "invalid value for method: 'bad' (expected 'hybrid' or 'joint-mh')");
    assert_eq!(parse_method("hybrid"), Ok(InferenceMethod::Hybrid));
    assert_eq!(parse_method("joint-mh"), Ok(InferenceMethod::JointMh));
}

#[test]
fn build_config_rejects_invalid_sampler_values() {
    let err = build_config(
        "train.csv".to_string(),
        "test.csv".to_string(),
        "toy".to_string(),
        "rust".to_string(),
        Some(1),
        None,
        None,
        "hybrid".to_string(),
        0,
        10,
        1,
        bits(0.3),
        bits(5.0),
        None,
        None,
        None,
    )
    .expect_err("n_samples=0 should fail");
    assert!(err.contains("n_samples"));
}

fn runtime(
    method: &str,
    n_samples: usize,
    thinning: usize,
    beta_step: f64,
    beta_sigma: f64,
    out_path: Option<&str>,
    diagnose_path: Option<&str>,
) -> Result<pnn_core::bindings::RunConfig, String> {
    build_runtime_config(
        "toy".to_string(),
        "rust".to_string(),
        Some(1),
        None,
        None,
        method.to_string(),
        n_samples,
        10,
        thinning,
        bits(beta_step),
        bits(beta_sigma),
        Some(7),
        out_path.map(|s| s.to_string()),
        diagnose_path.map(|s| s.to_string()),
    )
}

#[test]
fn runtime_config_checks_in_order() {
    assert_eq!(runtime("bad", 0, 0, 0.0, 0.0, None, None).unwrap_err(), "invalid value for n_samples: must be >= 1");
    assert_eq!(runtime("bad", 5, 0, 0.0, 0.0, None, None).unwrap_err(), "invalid value for thinning: must be >= 1");
    assert_eq!(runtime("bad", 5, 1, -0.0, 0.0, None, None).unwrap_err(), "invalid value for beta_step: must be > 0");
    assert_eq!(runtime("bad", 5, 1, 0.3, -1.0, None, None).unwrap_err(), "invalid value for beta_sigma: must be > 0");
    assert_eq!(runtime("bad", 5, 1, f64::NAN, 5.0, None, None).unwrap_err(), "invalid value for beta_step: must be > 0");
    assert_eq!(runtime("bad", 5, 1, 0.3, f64::NAN, None, None).unwrap_err(), "invalid value for beta_sigma: must be > 0");
    assert_eq!(
        runtime("bad", 5, 1, 0.3, 5.0, None, None).unwrap_err(),
        "invalid value for method: 'bad' (expected 'hybrid' or 'joint-mh')"
    );
    assert_eq!(
        runtime("hybrid", 5, 1, 0.3, 5.0, Some("  "), None).unwrap_err(),
        "out_path must not be empty when provided"
    );
    assert_eq!(
        runtime("hybrid", 5, 1, 0.3, 5.0, Some("o.json"), Some("")).unwrap_err(),
        "diagnose_path must not be empty when provided"
    );
}

#[test]
fn runtime_config_keeps_every_setting() {
    let c = runtime("joint-mh", 50, 2, 0.3, 5.0, Some("o.json"), Some("d.json")).unwrap();
    assert_eq!(c.train, "");
    assert_eq!(c.test, "");
    assert_eq!(c.output, Some("o.json".to_string()));
    assert_eq!(c.dataset, "toy");
    assert_eq!(c.implementation, "rust");
    assert_eq!(c.k_values, vec![1]);
    assert_eq!(c.method, InferenceMethod::JointMh);
    assert_eq!((c.n_samples, c.burn_in, c.thinning), (50, 10, 2));
    assert_eq!(f64::from_bits(c.beta_step), 0.3);
    assert_eq!(f64::from_bits(c.beta_sigma), 5.0);
    assert_eq!(c.seed, Some(7));
    assert_eq!(c.diagnose, Some("d.json".to_string()));
}

#[test]
fn build_config_refuses_blank_paths_first() {
    let mk = |train: &str, test: &str| {
        build_config(
            train.to_string(),
            test.to_string(),
            "toy".to_string(),
            "rust".to_string(),
            None,
            None,
            None,
            "bad".to_string(),
            0,
            0,
            0,
            bits(0.0),
            bits(0.0),
            None,
            None,
            None,
        )
    };
    assert_eq!(mk(" \t", "b.csv").unwrap_err(), "train_path must not be empty");
    assert_eq!(mk("a.csv", "").unwrap_err(), "test_path must not be empty");
    assert_eq!(mk("a.csv", "b.csv").unwrap_err(), "invalid value for n_samples: must be >= 1");
    let ok = build_config(
        " a.csv".to_string(),
        "b.csv".to_string(),
        "toy".to_string(),
        "rust".to_string(),
        None,
        None,
        None,
        "hybrid".to_string(),
        50,
        10,
        1,
        bits(0.3),
        bits(5.0),
        Some(1),
        None,
        None,
    )
    .unwrap();
    assert_eq!(ok.train, " a.csv");
    assert_eq!(ok.test, "b.csv");
    assert_eq!(ok.k_values, vec![3]);
}

#[test]
fn optional_paths() {
    assert_eq!(optional_path_from_string(None, "out_path"), Ok(None));
    assert_eq!(optional_path_from_string(Some("x.json".to_string()), "out_path"), Ok(Some("x.json".to_string())));
    assert_eq!(
        optional_path_from_string(Some("\n ".to_string()), "diagnose_path"),
        Err("diagnose_path must not be empty when provided".to_string())
    );
}

#[test]
fn run_model_rejects_mismatched_y_test_length() {
    let cfg = runtime("hybrid", 20, 1, 0.3, 5.0, None, None).expect("build runtime config");
    assert_eq!(cfg.n_samples, 20);
    let x_test_rows = 2;
    let y_test = vec![0usize];
    let err = check_test_labels(&Some(y_test), x_test_rows).expect_err("expected y_test length mismatch error");
    assert!(err.contains("y_test length"));
    assert_eq!(err, "y_test length (1) must match x_test row count (2)");
    assert_eq!(check_test_labels(&Some(vec![0, 1]), 2), Ok(()));
    assert_eq!(check_test_labels(&None, 2), Ok(()));
}
