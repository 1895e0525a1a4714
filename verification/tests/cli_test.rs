use pnn_core::cli::{parse_args, parse_row, path_value, string_value, usage, validate_headers, Config, USAGE};
use pnn_core::types::{InferenceMethod, DEFAULT_BETA_SIGMA_BITS, DEFAULT_BETA_STEP_BITS};

fn args(list: &[&str]) -> Vec<String> {
    list.iter().map(|s| s.to_string()).collect()
}

fn readings(list: &[String]) -> Vec<Option<u64>> {
    list.iter().map(|s| s.parse::<f64>().ok().map(f64::to_bits)).collect()
}

fn run(list: &[&str]) -> Result<Config, String> {
    let a = args(list);
    let r = readings(&a);
    parse_args(&a, &r)
}

#[test]
fn fails_on_invalid_method_value() {
    let err = run(&["--method", "foo"]).expect_err("expected invalid --method value");
    assert!(err.contains("invalid value for --method"), "unexpected error: {err}");
}

#[test]
fn fails_on_zero_thinning_value() {
    let err = run(&["--thinning", "0"]).expect_err("expected invalid --thinning value");
    assert!(err.contains("invalid value for --thinning: must be >= 1"), "unexpected error: {err}");
}

#[test]
fn fails_on_zero_beta_step_value() {
    let err = run(&["--beta-step", "0"]).expect_err("expected invalid --beta-step value");
    assert!(err.contains("invalid value for --beta-step: must be > 0"), "unexpected error: {err}");
}

#[test]
fn fails_on_zero_beta_sigma_value() {
    let err = run(&["--beta-sigma", "0"]).expect_err("expected invalid --beta-sigma value");
    assert!(err.contains("invalid value for --beta-sigma: must be > 0"), "unexpected error: {err}");
}

#[test]
fn full_argument_list_is_read_with_defaults() {
    let c = run(&["--train", "a.csv", "--test", "b.csv", "--out", "o.json"]).unwrap();
    assert_eq!(c.train, "a.csv");
    assert_eq!(c.test, "b.csv");
    assert_eq!(c.output, "o.json");
    assert_eq!(c.dataset, "unknown");
    assert_eq!(c.implementation, "rust");
    assert_eq!(c.k_values, vec![3]);
    assert_eq!(c.method, InferenceMethod::Hybrid);
    assert_eq!((c.n_samples, c.burn_in, c.thinning), (1000, 500, 1));
    assert_eq!(c.beta_step, DEFAULT_BETA_STEP_BITS);
    assert_eq!(c.beta_sigma, DEFAULT_BETA_SIGMA_BITS);
    assert_eq!(c.seed, None);
    assert_eq!(c.diagnose, None);
}

#[test]
fn every_option_is_read() {
    let c = run(&[
        "--train", "a.csv", "--test", "b.csv", "--out", "o.json", "--dataset", "toy", "--implementation", "zig",
        "--k", "4", "--method", "joint-mh", "--n-samples", "40", "--burn-in", "0", "--thinning", "3", "--seed",
        "18446744073709551615", "--beta-step", "0.05", "--beta-sigma", "2.5", "--diagnose", "d.json",
    ])
    .unwrap();
    assert_eq!(c.dataset, "toy");
    assert_eq!(c.implementation, "zig");
    assert_eq!(c.k_values, vec![4]);
    assert_eq!(c.method, InferenceMethod::JointMh);
    assert_eq!((c.n_samples, c.burn_in, c.thinning), (40, 0, 3));
    assert_eq!(c.seed, Some(u64::MAX));
    assert_eq!(f64::from_bits(c.beta_step), 0.05);
    assert_eq!(f64::from_bits(c.beta_sigma), 2.5);
    assert_eq!(c.diagnose, Some("d.json".to_string()));
}

#[test]
fn k_values_take_precedence_over_range_and_single_k() {
    let base = ["--train", "a", "--test", "b", "--out", "c"];
    let mut l = base.to_vec();
    l.extend_from_slice(&["--k", "9", "--k-range", "3,6", "--k-values", " 2, 4 "]);
    assert_eq!(run(&l).unwrap().k_values, vec![2, 4]);
    let mut l = base.to_vec();
    l.extend_from_slice(&["--k", "9", "--k-range", "3, 6"]);
    assert_eq!(run(&l).unwrap().k_values, vec![3, 4, 5, 6]);
    let mut l = base.to_vec();
    l.extend_from_slice(&["--k", "9"]);
    assert_eq!(run(&l).unwrap().k_values, vec![9]);
}

#[test]
fn later_option_overrides_earlier() {
    let c = run(&["--train", "a", "--test", "b", "--out", "c", "--dataset", "x", "--dataset", "y"]).unwrap();
    assert_eq!(c.dataset, "y");
}

#[test]
fn each_option_error_has_its_message() {
    assert_eq!(run(&["--k", "0"]).unwrap_err(), "invalid value for --k: must be >= 1");
    assert_eq!(run(&["--k", "x"]).unwrap_err(), "invalid value for --k: x (expected positive integer)");
    assert_eq!(run(&["--n-samples", "0"]).unwrap_err(), "invalid value for --n-samples: must be >= 1");
    assert_eq!(run(&["--burn-in", "-1"]).unwrap_err(), "invalid value for --burn-in: -1 (expected non-negative integer)");
    assert_eq!(run(&["--seed", "s"]).unwrap_err(), "invalid value for --seed: s (expected non-negative integer)");
    assert_eq!(run(&["--beta-step", "abc"]).unwrap_err(), "invalid value for --beta-step: abc (expected positive float)");
    assert_eq!(run(&["--beta-sigma", "-2"]).unwrap_err(), "invalid value for --beta-sigma: must be > 0");
    assert_eq!(
        run(&["--method", "foo"]).unwrap_err(),
        "invalid value for --method: 'foo' (expected 'hybrid' or 'joint-mh')"
    );
    assert_eq!(
        run(&["--k-values", ""]).unwrap_err(),
        "invalid value in --k-values: '' (expected comma-separated positive integers)"
    );
    assert_eq!(
        run(&["--k-values", "1,x"]).unwrap_err(),
        "invalid value in --k-values: 'x' (expected comma-separated positive integers)"
    );
    assert_eq!(run(&["--k-values", "1,0"]).unwrap_err(), "invalid value in --k-values: all values must be >= 1");
    assert_eq!(run(&["--k-range", "5"]).unwrap_err(), "invalid value for --k-range: expected start,end (e.g. 2,40)");
    assert_eq!(
        run(&["--k-range", "a,3"]).unwrap_err(),
        "invalid start in --k-range: 'a' (expected positive integer)"
    );
    assert_eq!(run(&["--k-range", "0,3"]).unwrap_err(), "invalid value for --k-range: start must be >= 1");
    assert_eq!(run(&["--k-range", "6,3"]).unwrap_err(), "invalid value for --k-range: end (3) must be >= start (6)");
    assert_eq!(run(&["--train"]).unwrap_err(), "missing value for --train");
    assert_eq!(run(&["--bogus", "1"]).unwrap_err(), format!("unknown argument: --bogus\n{USAGE}"));
    assert_eq!(run(&["--help"]).unwrap_err(), USAGE);
    assert_eq!(run(&[]).unwrap_err(), format!("missing required --train\n{USAGE}"));
    assert_eq!(run(&["--train", "a"]).unwrap_err(), format!("missing required --test\n{USAGE}"));
    assert_eq!(run(&["--train", "a", "--test", "b"]).unwrap_err(), format!("missing required --out\n{USAGE}"));
}

#[test]
fn nan_beta_values_are_refused() {
    assert_eq!(
        run(&["--train", "a", "--test", "b", "--out", "c", "--beta-step", "NaN"]).unwrap_err(),
        "invalid value for --beta-step: must be > 0"
    );
    assert_eq!(
        run(&["--train", "a", "--test", "b", "--out", "c", "--beta-sigma", "nan"]).unwrap_err(),
        "invalid value for --beta-sigma: must be > 0"
    );
    let c = run(&["--train", "a", "--test", "b", "--out", "c", "--beta-step", "inf"]).unwrap();
    assert_eq!(f64::from_bits(c.beta_step), f64::INFINITY);
}

#[test]
fn usage_and_value_helpers() {
    assert_eq!(usage(), USAGE);
    assert!(usage().starts_with("Usage: pnn-cli --train <path>"));
    assert_eq!(string_value("--k", Some("3".to_string())), Ok("3".to_string()));
    assert_eq!(string_value("--k", None), Err("missing value for --k".to_string()));
    assert_eq!(path_value("--out", Some("p.json".to_string())), Ok("p.json".to_string()));
    assert_eq!(path_value("--out", None), Err("missing value for --out".to_string()));
}

#[test]
fn header_must_end_with_label() {
    let ok = args(&["x1", "x2", "label"]);
    assert_eq!(validate_headers("train.csv", &ok), Ok(()));
    let bad = args(&["x1", "x2", "class"]);
    let err = validate_headers("train.csv", &bad).unwrap_err();
    assert!(err.contains("last column must be named `label`"));
    assert_eq!(err, "train.csv: last column must be named `label`");
    let short = args(&["label"]);
    assert_eq!(
        validate_headers("t.csv", &short).unwrap_err(),
        "t.csv: expected at least one feature column plus `label`"
    );
}

#[test]
fn rows_are_checked_in_order() {
    let row = args(&["0.5", "1.5", "2"]);
    assert_eq!(parse_row("t.csv", &row, 1, &vec![true, true, false]), Ok(2));
    assert_eq!(
        parse_row("t.csv", &args(&["3"]), 4, &vec![true]).unwrap_err(),
        "t.csv row 4: expected at least one feature and one label"
    );
    assert_eq!(
        parse_row("t.csv", &args(&["0.5", "x", "y", "2"]), 7, &vec![true, false, false, true]).unwrap_err(),
        "t.csv row 7: non-numeric feature at column 1"
    );
    assert_eq!(
        parse_row("t.csv", &args(&["0.5", "-2"]), 12, &vec![true, true]).unwrap_err(),
        "t.csv row 12: label must be a non-negative integer"
    );
}
