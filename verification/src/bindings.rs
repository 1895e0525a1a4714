//! The settings of a run requested through the Python bindings: the checks and defaults
//! that turn the keyword arguments of `run_from_csv` and `run_from_arrays` into a
//! `RunConfig`. Paths are kept as the text the caller gave.
use vstd::prelude::*;
use crate::cli::method_of;
use crate::double::{is_positive, is_positive_bits};
use crate::text::{decimal, decimal_text, str_eq, trim, trimmed};
use crate::types::InferenceMethod;

verus! {

fn text_of(s: &str) -> (r: String)
    ensures
        r@ == s@,
{
    String::from_str(s)
}

/// The message for a sampler method that is neither `hybrid` nor `joint-mh`.
pub open spec fn method_error_text(raw: Seq<char>) -> Seq<char> {
    "invalid value for method: '"@ + raw + "' (expected 'hybrid' or 'joint-mh')"@
}

/// Reads the name of a sampler method.
pub fn parse_method(raw: &str) -> (r: Result<InferenceMethod, String>)
    ensures
        match method_of(raw@) {
            Some(m) => r == Ok::<InferenceMethod, String>(m),
            None => (r matches Err(e) && e@ == method_error_text(raw@)),
        },
{
    if str_eq(raw, "hybrid") {
        Ok(InferenceMethod::Hybrid)
    } else if str_eq(raw, "joint-mh") {
        Ok(InferenceMethod::JointMh)
    } else {
        let mut e = text_of("invalid value for method: '");
        e.append(raw);
        e.append("' (expected 'hybrid' or 'joint-mh')");
        Err(e)
    }
}

/// Text that is empty once its white space is trimmed.
pub open spec fn is_blank(s: Seq<char>) -> bool {
    trimmed(s).len() == 0
}

fn blank(s: &str) -> (r: bool)
    ensures
        r == is_blank(s@),
{
    let t = trim(s);
    t.as_str().is_empty()
}

/// The message for an optional path given as blank text.
pub open spec fn blank_path_text(field_name: Seq<char>) -> Seq<char> {
    field_name + " must not be empty when provided"@
}

/// An optional path: absent stays absent, blank text is refused, other text is the path.
pub fn optional_path_from_string(value: Option<String>, field_name: &str) -> (r: Result<Option<String>, String>)
    ensures
        match value {
            None => r matches Ok(None),
            Some(raw) => if is_blank(raw@) {
                r matches Err(e) && e@ == blank_path_text(field_name@)
            } else {
                r matches Ok(Some(p)) && p@ == raw@
            },
        },
{
    match value {
        Some(raw) => {
            if blank(raw.as_str()) {
                let mut e = text_of(field_name);
                e.append(" must not be empty when provided");
                return Err(e);
            }
            Ok(Some(raw))
        },
        None => Ok(None),
    }
}

/// The view of an optional list.
pub open spec fn opt_view(o: Option<Vec<usize>>) -> Option<Seq<usize>> {
    match o {
        Some(v) => Some(v@),
        None => None,
    }
}

/// Why a request for candidate ks is refused: an explicit list wins over a range, which
/// wins over a single k (3 when none is given).
pub open spec fn k_request_error(k: Option<usize>, k_values: Option<Seq<usize>>, k_range: Option<(usize, usize)>) -> Option<Seq<char>> {
    match k_values {
        Some(v) => if v.len() == 0 {
            Some("invalid value for k_values: must supply at least one value"@)
        } else if exists|i: int| 0 <= i < v.len() && #[trigger] v[i] == 0 {
            Some("invalid value in k_values: all values must be >= 1"@)
        } else {
            None
        },
        None => match k_range {
            Some((start, end)) => if start == 0 {
                Some("invalid value for k_range: start must be >= 1"@)
            } else if end < start {
                Some(
                    "invalid value for k_range: end ("@ + decimal(end as nat) + ") must be >= start ("@
                        + decimal(start as nat) + ")"@,
                )
            } else {
                None
            },
            None => match k {
                Some(0) => Some("invalid value for k: must be >= 1"@),
                _ => None,
            },
        },
    }
}

/// The integers `start..=end`.
pub open spec fn k_span(start: usize, end: usize) -> Seq<usize> {
    Seq::new((end - start + 1) as nat, |i: int| (start + i) as usize)
}

/// The candidate ks an accepted request stands for.
pub open spec fn k_request(k: Option<usize>, k_values: Option<Seq<usize>>, k_range: Option<(usize, usize)>) -> Seq<usize> {
    match k_values {
        Some(v) => v,
        None => match k_range {
            Some((start, end)) => k_span(start, end),
            None => match k {
                Some(x) => seq![x],
                None => seq![3usize],
            },
        },
    }
}

/// The candidate ks: from `k_values`, else from the inclusive `k_range`, else `k`, else 3.
pub fn resolve_k_values(k: Option<usize>, k_values: Option<Vec<usize>>, k_range: Option<(usize, usize)>) -> (r: Result<Vec<usize>, String>)
    ensures
        match r {
            Ok(v) => k_request_error(k, opt_view(k_values), k_range) is None && v@ == k_request(
                k,
                opt_view(k_values),
                k_range,
            ),
            Err(e) => k_request_error(k, opt_view(k_values), k_range) == Some(e@),
        },
{
    if let Some(values) = k_values {
        if values.len() == 0 {
            return Err(text_of("invalid value for k_values: must supply at least one value"));
        }
        let mut i: usize = 0;
        while i < values.len()
            invariant
                i <= values.len(),
                opt_view(k_values) == Some(values@),
                forall|q: int| 0 <= q < i ==> #[trigger] values@[q] != 0,
            decreases values.len() - i,
        {
            if values[i] == 0 {
                assert(values@[i as int] == 0);
                return Err(text_of("invalid value in k_values: all values must be >= 1"));
            }
            i += 1;
        }
        return Ok(values);
    }
    if let Some((start, end)) = k_range {
        if start == 0 {
            return Err(text_of("invalid value for k_range: start must be >= 1"));
        }
        if end < start {
            let mut e = text_of("invalid value for k_range: end (");
            e.append(decimal_text(end).as_str());
            e.append(") must be >= start (");
            e.append(decimal_text(start).as_str());
            e.append(")");
            return Err(e);
        }
        let mut v: Vec<usize> = Vec::new();
        let mut x: usize = start;
        let mut done = false;
        while !done
            invariant
                1 <= start <= x <= end,
                !done ==> v@ == k_span(start, end).take(x - start),
                done ==> v@ == k_span(start, end),
            decreases end - x + (if done { 0int } else { 1int }),
        {
            v.push(x);
            if x == end {
                done = true;
                assert(v@ =~= k_span(start, end));
            } else {
                assert(v@ =~= k_span(start, end).take(x + 1 - start));
                x += 1;
            }
        }
        return Ok(v);
    }
    let k_single = match k {
        Some(x) => x,
        None => 3,
    };
    if k_single == 0 {
        return Err(text_of("invalid value for k: must be >= 1"));
    }
    let mut v: Vec<usize> = Vec::new();
    v.push(k_single);
    proof {
        assert(v@ =~= k_request(k, opt_view(k_values), k_range));
    }
    Ok(v)
}

/// The settings of one run.
#[derive(Debug)]
pub struct RunConfig {
    pub train: String,
    pub test: String,
    pub output: Option<String>,
    pub dataset: String,
    pub implementation: String,
    pub k_values: Vec<usize>,
    pub method: InferenceMethod,
    pub n_samples: usize,
    pub burn_in: usize,
    pub thinning: usize,
    /// Proposal step for beta: the bit pattern of a positive double (NaN is refused).
    pub beta_step: u64,
    /// Prior scale of beta: the bit pattern of a positive double (NaN is refused).
    pub beta_sigma: u64,
    pub seed: Option<u64>,
    pub diagnose: Option<String>,
}

/// The text of an optional string.
pub open spec fn opt_text(o: Option<String>) -> Option<Seq<char>> {
    match o {
        Some(s) => Some(s@),
        None => None,
    }
}

/// An optional path that is given as blank text.
pub open spec fn is_blank_path(o: Option<Seq<char>>) -> bool {
    o matches Some(p) && is_blank(p)
}

/// Why the sampler settings of a run are refused, checked in this order.
pub open spec fn runtime_config_error(
    k: Option<usize>,
    k_values: Option<Seq<usize>>,
    k_range: Option<(usize, usize)>,
    method: Seq<char>,
    n_samples: usize,
    thinning: usize,
    beta_step: u64,
    beta_sigma: u64,
    out_path: Option<Seq<char>>,
    diagnose_path: Option<Seq<char>>,
) -> Option<Seq<char>> {
    if n_samples == 0 {
        Some("invalid value for n_samples: must be >= 1"@)
    } else if thinning == 0 {
        Some("invalid value for thinning: must be >= 1"@)
    } else if !is_positive_bits(beta_step) {
        Some("invalid value for beta_step: must be > 0"@)
    } else if !is_positive_bits(beta_sigma) {
        Some("invalid value for beta_sigma: must be > 0"@)
    } else if k_request_error(k, k_values, k_range) is Some {
        k_request_error(k, k_values, k_range)
    } else if method_of(method) is None {
        Some(method_error_text(method))
    } else if is_blank_path(out_path) {
        Some(blank_path_text("out_path"@))
    } else if is_blank_path(diagnose_path) {
        Some(blank_path_text("diagnose_path"@))
    } else {
        None
    }
}

/// Reads the sampler settings of a run; the data paths are left empty. `beta_step` and
/// `beta_sigma` are bit patterns of doubles.
pub fn build_runtime_config(
    dataset: String,
    implementation: String,
    k: Option<usize>,
    k_values: Option<Vec<usize>>,
    k_range: Option<(usize, usize)>,
    method: String,
    n_samples: usize,
    burn_in: usize,
    thinning: usize,
    beta_step: u64,
    beta_sigma: u64,
    seed: Option<u64>,
    out_path: Option<String>,
    diagnose_path: Option<String>,
) -> (r: Result<RunConfig, String>)
    ensures
        ({
            let err = runtime_config_error(
                k,
                opt_view(k_values),
                k_range,
                method@,
                n_samples,
                thinning,
                beta_step,
                beta_sigma,
                opt_text(out_path),
                opt_text(diagnose_path),
            );
            match r {
                Ok(c) => {
                    &&& err is None
                    &&& c.train@.len() == 0
                    &&& c.test@.len() == 0
                    &&& opt_text(c.output) == opt_text(out_path)
                    &&& c.dataset@ == dataset@
                    &&& c.implementation@ == implementation@
                    &&& c.k_values@ == k_request(k, opt_view(k_values), k_range)
                    &&& Some(c.method) == method_of(method@)
                    &&& c.n_samples == n_samples
                    &&& c.burn_in == burn_in
                    &&& c.thinning == thinning
                    &&& c.beta_step == beta_step
                    &&& c.beta_sigma == beta_sigma
                    &&& c.seed == seed
                    &&& opt_text(c.diagnose) == opt_text(diagnose_path)
                },
                Err(e) => err == Some(e@),
            }
        }),
{
    if n_samples == 0 {
        return Err(text_of("invalid value for n_samples: must be >= 1"));
    }
    if thinning == 0 {
        return Err(text_of("invalid value for thinning: must be >= 1"));
    }
    if !is_positive(beta_step) {
        return Err(text_of("invalid value for beta_step: must be > 0"));
    }
    if !is_positive(beta_sigma) {
        return Err(text_of("invalid value for beta_sigma: must be > 0"));
    }
    let ghost kv = opt_view(k_values);
    let k_values = match resolve_k_values(k, k_values, k_range) {
        Ok(v) => v,
        Err(e) => return Err(e),
    };
    let method = match parse_method(method.as_str()) {
        Ok(m) => m,
        Err(e) => return Err(e),
    };
    let output = match optional_path_from_string(out_path, "out_path") {
        Ok(p) => p,
        Err(e) => return Err(e),
    };
    let diagnose = match optional_path_from_string(diagnose_path, "diagnose_path") {
        Ok(p) => p,
        Err(e) => return Err(e),
    };
    Ok(RunConfig {
        train: String::new(),
        test: String::new(),
        output,
        dataset,
        implementation,
        k_values,
        method,
        n_samples,
        burn_in,
        thinning,
        beta_step,
        beta_sigma,
        seed,
        diagnose,
    })
}

/// Reads the settings of a run over two CSV files; blank data paths are refused first.
pub fn build_config(
    train_path: String,
    test_path: String,
    dataset: String,
    implementation: String,
    k: Option<usize>,
    k_values: Option<Vec<usize>>,
    k_range: Option<(usize, usize)>,
    method: String,
    n_samples: usize,
    burn_in: usize,
    thinning: usize,
    beta_step: u64,
    beta_sigma: u64,
    seed: Option<u64>,
    out_path: Option<String>,
    diagnose_path: Option<String>,
) -> (r: Result<RunConfig, String>)
    ensures
        ({
            let err = runtime_config_error(
                k,
                opt_view(k_values),
                k_range,
                method@,
                n_samples,
                thinning,
                beta_step,
                beta_sigma,
                opt_text(out_path),
                opt_text(diagnose_path),
            );
            if is_blank(train_path@) {
                r matches Err(e) && e@ == "train_path must not be empty"@
            } else if is_blank(test_path@) {
                r matches Err(e) && e@ == "test_path must not be empty"@
            } else {
                match r {
                    Ok(c) => {
                        &&& err is None
                        &&& c.train@ == train_path@
                        &&& c.test@ == test_path@
                        &&& opt_text(c.output) == opt_text(out_path)
                        &&& c.dataset@ == dataset@
                        &&& c.implementation@ == implementation@
                        &&& c.k_values@ == k_request(k, opt_view(k_values), k_range)
                        &&& Some(c.method) == method_of(method@)
                        &&& c.n_samples == n_samples
                        &&& c.burn_in == burn_in
                        &&& c.thinning == thinning
                        &&& c.beta_step == beta_step
                        &&& c.beta_sigma == beta_sigma
                        &&& c.seed == seed
                        &&& opt_text(c.diagnose) == opt_text(diagnose_path)
                    },
                    Err(e) => err == Some(e@),
                }
            }
        }),
{
    if blank(train_path.as_str()) {
        return Err(text_of("train_path must not be empty"));
    }
    if blank(test_path.as_str()) {
        return Err(text_of("test_path must not be empty"));
    }
    let mut config = match build_runtime_config(
        dataset,
        implementation,
        k,
        k_values,
        k_range,
        method,
        n_samples,
        burn_in,
        thinning,
        beta_step,
        beta_sigma,
        seed,
        out_path,
        diagnose_path,
    ) {
        Ok(c) => c,
        Err(e) => return Err(e),
    };
    config.train = train_path;
    config.test = test_path;
    Ok(config)
}

} // verus!
