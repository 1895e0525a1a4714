//! Core data types: the validated model, sampler settings and posterior draws.
//!
//! A feature value, a `beta` and the sampler's step sizes are IEEE-754 doubles; here
//! each is held as its 64-bit pattern (`f64::to_bits`), which callers turn back into
//! the double with `f64::from_bits`.
use vstd::prelude::*;
use crate::text::decimal;
use crate::text::decimal_text;

verus! {

/// Training features, one row per sample, each value as the bit pattern of a double.
pub type DataMatrix = Vec<Vec<u64>>;

/// Class labels, `0..n_classes`.
pub type Labels = Vec<usize>;

/// `CountTensor[i][ki][c]`: how many of training point `i`'s nearest `k_values[ki]`
/// neighbours (itself excluded) have class `c`.
pub type CountTensor = Vec<Vec<Vec<usize>>>;

// ── Errors ──────────────────────────────────────────────────────────────────

#[derive(Debug, Clone, PartialEq, Eq, Structural)]
pub enum ModelError {
    EmptyTrainingData,
    EmptyLabels,
    LengthMismatch { n_samples: usize, n_labels: usize },
    EmptyFeatureVector { row_index: usize },
    InconsistentFeatureDimensions { expected: usize, found: usize, row_index: usize },
    InvalidClassCount { n_classes: usize },
    EmptyKValues,
    InvalidKValue { k: usize, n_train: usize },
    LabelOutOfRange { label: usize, n_classes: usize, row_index: usize },
}

/// The message that describes a model error.
pub open spec fn model_error_text(e: ModelError) -> Seq<char> {
    match e {
        ModelError::EmptyTrainingData => "training data must not be empty"@,
        ModelError::EmptyLabels => "labels must not be empty"@,
        ModelError::LengthMismatch { n_samples, n_labels } => "training sample count ("@ + decimal(
            n_samples as nat,
        ) + ") does not match label count ("@ + decimal(n_labels as nat) + ")"@,
        ModelError::EmptyFeatureVector { row_index } => "feature vector at row "@ + decimal(
            row_index as nat,
        ) + " must not be empty"@,
        ModelError::InconsistentFeatureDimensions { expected, found, row_index } =>
            "feature vector at row "@ + decimal(row_index as nat) + " has "@ + decimal(
                found as nat,
            ) + " columns, expected "@ + decimal(expected as nat),
        ModelError::InvalidClassCount { n_classes } => "n_classes must be > 0, got "@ + decimal(
            n_classes as nat,
        ),
        ModelError::EmptyKValues => "k_values must not be empty"@,
        ModelError::InvalidKValue { k, n_train } => "k must be in 1..="@ + decimal(n_train as nat)
            + ", got "@ + decimal(k as nat),
        ModelError::LabelOutOfRange { label, n_classes, row_index } => "label value "@ + decimal(
            label as nat,
        ) + " at row "@ + decimal(row_index as nat) + " exceeds class range 0.."@ + decimal(
            (if n_classes == 0 { 0 } else { n_classes - 1 }) as nat,
        ),
    }
}

fn text(s: &str) -> (r: String)
    ensures
        r@ == s@,
{
    String::from_str(s)
}

impl ModelError {
    /// The human-readable description of this error.
    pub fn message(&self) -> (r: String)
        ensures
            r@ == model_error_text(*self),
    {
        match self {
            ModelError::EmptyTrainingData => text("training data must not be empty"),
            ModelError::EmptyLabels => text("labels must not be empty"),
            ModelError::LengthMismatch { n_samples, n_labels } => {
                let mut r = text("training sample count (");
                r.append(decimal_text(*n_samples).as_str());
                r.append(") does not match label count (");
                r.append(decimal_text(*n_labels).as_str());
                r.append(")");
                r
            },
            ModelError::EmptyFeatureVector { row_index } => {
                let mut r = text("feature vector at row ");
                r.append(decimal_text(*row_index).as_str());
                r.append(" must not be empty");
                r
            },
            ModelError::InconsistentFeatureDimensions { expected, found, row_index } => {
                let mut r = text("feature vector at row ");
                r.append(decimal_text(*row_index).as_str());
                r.append(" has ");
                r.append(decimal_text(*found).as_str());
                r.append(" columns, expected ");
                r.append(decimal_text(*expected).as_str());
                r
            },
            ModelError::InvalidClassCount { n_classes } => {
                let mut r = text("n_classes must be > 0, got ");
                r.append(decimal_text(*n_classes).as_str());
                r
            },
            ModelError::EmptyKValues => text("k_values must not be empty"),
            ModelError::InvalidKValue { k, n_train } => {
                let mut r = text("k must be in 1..=");
                r.append(decimal_text(*n_train).as_str());
                r.append(", got ");
                r.append(decimal_text(*k).as_str());
                r
            },
            ModelError::LabelOutOfRange { label, n_classes, row_index } => {
                let top = if *n_classes == 0 { 0 } else { *n_classes - 1 };
                let mut r = text("label value ");
                r.append(decimal_text(*label).as_str());
                r.append(" at row ");
                r.append(decimal_text(*row_index).as_str());
                r.append(" exceeds class range 0..");
                r.append(decimal_text(top).as_str());
                r
            },
        }
    }
}

// ── Sampler configuration ───────────────────────────────────────────────────

#[derive(Debug, Clone, Copy, PartialEq, Eq, Structural)]
pub enum InferenceMethod {
    /// Gibbs step for k + log-scale MH for beta. Default; mixes well in practice.
    Hybrid,
    /// Joint MH proposal over (k, beta). Paper-style; useful for reference runs.
    JointMh,
}

/// Bit pattern of the double 0.3, the default proposal step for beta.
pub const DEFAULT_BETA_STEP_BITS: u64 = 0x3FD3_3333_3333_3333u64;

/// Bit pattern of the double 5.0, the default prior scale for beta.
pub const DEFAULT_BETA_SIGMA_BITS: u64 = 0x4014_0000_0000_0000u64;

#[derive(Debug, Clone, PartialEq, Eq)]
pub struct SamplerConfig {
    pub method: InferenceMethod,
    pub n_samples: usize,
    pub burn_in: usize,
    /// Keep one draw every `thinning` iterations after burn-in.
    pub thinning: usize,
    /// Proposal standard deviation for the MH step on beta (bit pattern of a double).
    pub beta_step: u64,
    /// Scale parameter of the half-normal prior on beta (bit pattern of a double).
    pub beta_sigma: u64,
    pub seed: Option<u64>,
}

impl SamplerConfig {
    /// The default settings: Hybrid, 1000 samples after 500 burn-in iterations, no
    /// thinning, beta step 0.3, beta prior scale 5.0, fresh entropy for the seed.
    pub fn default() -> (r: SamplerConfig)
        ensures
            r.method == InferenceMethod::Hybrid,
            r.n_samples == 1000,
            r.burn_in == 500,
            r.thinning == 1,
            r.beta_step == DEFAULT_BETA_STEP_BITS,
            r.beta_sigma == DEFAULT_BETA_SIGMA_BITS,
            r.seed is None,
    {
        SamplerConfig {
            method: InferenceMethod::Hybrid,
            n_samples: 1000,
            burn_in: 500,
            thinning: 1,
            beta_step: DEFAULT_BETA_STEP_BITS,
            beta_sigma: DEFAULT_BETA_SIGMA_BITS,
            seed: None,
        }
    }
}

// ── Posterior draws ─────────────────────────────────────────────────────────

#[derive(Debug, Clone, Copy, PartialEq, Eq)]
pub struct PosteriorDraw {
    /// Position in `k_values` that was sampled.
    pub k_index: usize,
    /// Actual k value (`model.k_values[k_index]`).
    pub k: usize,
    /// The sampled beta (bit pattern of a double).
    pub beta: u64,
}

#[derive(Debug, Clone)]
pub struct SamplerResult {
    /// Post-burn-in, post-thinning draws: the posterior chain.
    pub chain: Vec<PosteriorDraw>,
    /// Every burn-in draw at full resolution (no thinning), in iteration order.
    pub burn_in_chain: Vec<PosteriorDraw>,
    /// Proposals accepted during the post-burn-in phase.
    pub n_accepted: usize,
    /// Total Gibbs+MH cycles run: burn_in + n_samples * thinning.
    pub total_iters: usize,
}

// ── Model ───────────────────────────────────────────────────────────────────

#[derive(Debug, Clone)]
pub struct PnnModel {
    pub x_train: DataMatrix,
    pub y_train: Labels,
    pub n_classes: usize,
    /// Sorted, deduplicated candidate k values (e.g. `[1, 3, 5, 7]`).
    pub k_values: Vec<usize>,
}

/// Every element of `s` is smaller than the next one.
pub open spec fn strictly_increasing(s: Seq<usize>) -> bool {
    forall|a: int, b: int| 0 <= a < b < s.len() ==> #[trigger] s[a] < #[trigger] s[b]
}

/// A candidate k that cannot be used with `n_train` training points: after leaving a
/// point itself out only `n_train - 1` neighbours remain.
pub open spec fn is_bad_k(k: usize, n_train: nat) -> bool {
    k == 0 || k >= n_train
}

/// The first row whose length differs from `expected`.
pub open spec fn first_row_of_other_len(x: Seq<Vec<u64>>, expected: nat) -> int {
    choose|r: int|
        0 <= r < x.len() && x[r].len() != expected && forall|q: int|
            0 <= q < r ==> #[trigger] x[q].len() == expected
}

/// The smallest unusable candidate k.
pub open spec fn smallest_bad_k(kv: Seq<usize>, n_train: nat) -> usize {
    choose|b: usize|
        kv.contains(b) && is_bad_k(b, n_train) && forall|c: usize|
            kv.contains(c) && is_bad_k(c, n_train) ==> b <= c
}

/// The first row whose label is not below `n_classes`.
pub open spec fn first_label_out_of_range(y: Seq<usize>, n_classes: usize) -> int {
    choose|r: int|
        0 <= r < y.len() && y[r] >= n_classes && forall|q: int|
            0 <= q < r ==> #[trigger] y[q] < n_classes
}

/// What `PnnModel::new` rejects its arguments for, checked in this order; `None` when
/// it accepts them.
pub open spec fn model_error(
    x: Seq<Vec<u64>>,
    y: Seq<usize>,
    n_classes: usize,
    kv: Seq<usize>,
) -> Option<ModelError> {
    if x.len() == 0 {
        Some(ModelError::EmptyTrainingData)
    } else if y.len() == 0 {
        Some(ModelError::EmptyLabels)
    } else if x.len() != y.len() {
        Some(ModelError::LengthMismatch { n_samples: x.len() as usize, n_labels: y.len() as usize })
    } else if x[0].len() == 0 {
        Some(ModelError::EmptyFeatureVector { row_index: 0 })
    } else if exists|r: int| 0 <= r < x.len() && #[trigger] x[r].len() != x[0].len() {
        let r = first_row_of_other_len(x, x[0].len() as nat);
        if x[r].len() == 0 {
            Some(ModelError::EmptyFeatureVector { row_index: r as usize })
        } else {
            Some(
                ModelError::InconsistentFeatureDimensions {
                    expected: x[0].len() as usize,
                    found: x[r].len() as usize,
                    row_index: r as usize,
                },
            )
        }
    } else if n_classes == 0 {
        Some(ModelError::InvalidClassCount { n_classes })
    } else if kv.len() == 0 {
        Some(ModelError::EmptyKValues)
    } else if exists|i: int| 0 <= i < kv.len() && is_bad_k(#[trigger] kv[i], x.len() as nat) {
        Some(ModelError::InvalidKValue { k: smallest_bad_k(kv, x.len() as nat), n_train: x.len() as usize })
    } else if exists|r: int| 0 <= r < y.len() && #[trigger] y[r] >= n_classes {
        let r = first_label_out_of_range(y, n_classes);
        Some(ModelError::LabelOutOfRange { label: y[r], n_classes, row_index: r as usize })
    } else {
        None
    }
}

impl PnnModel {
    /// The model's invariant: a non-empty rectangular feature matrix with one label
    /// per row, every label a class, and strictly increasing usable candidate ks.
    pub open spec fn wf(&self) -> bool {
        &&& self.x_train.len() > 0
        &&& self.x_train[0].len() > 0
        &&& forall|r: int| 0 <= r < self.x_train.len() ==> #[trigger] self.x_train[r].len() == self.x_train[0].len()
        &&& self.y_train.len() == self.x_train.len()
        &&& self.n_classes > 0
        &&& forall|r: int| 0 <= r < self.y_train.len() ==> #[trigger] self.y_train[r] < self.n_classes
        &&& self.k_values.len() > 0
        &&& strictly_increasing(self.k_values@)
        &&& forall|i: int| 0 <= i < self.k_values.len() ==> 1 <= #[trigger] self.k_values[i] < self.x_train.len()
    }

    /// Validates the training data and candidate ks; the candidate ks are stored sorted
    /// and without duplicates.
    pub fn new(x_train: DataMatrix, y_train: Labels, n_classes: usize, k_values: Vec<usize>) -> (r: Result<Self, ModelError>)
        ensures
            match r {
                Ok(m) => {
                    &&& model_error(x_train@, y_train@, n_classes, k_values@) is None
                    &&& m.wf()
                    &&& m.x_train@ == x_train@
                    &&& m.y_train@ == y_train@
                    &&& m.n_classes == n_classes
                    &&& forall|v: usize| m.k_values@.contains(v) <==> k_values@.contains(v)
                },
                Err(e) => model_error(x_train@, y_train@, n_classes, k_values@) == Some(e),
            },
    {
        if x_train.len() == 0 {
            return Err(ModelError::EmptyTrainingData);
        }
        if y_train.len() == 0 {
            return Err(ModelError::EmptyLabels);
        }
        if x_train.len() != y_train.len() {
            return Err(ModelError::LengthMismatch { n_samples: x_train.len(), n_labels: y_train.len() });
        }
        let expected_features = x_train[0].len();
        if expected_features == 0 {
            return Err(ModelError::EmptyFeatureVector { row_index: 0 });
        }
        let mut row_index: usize = 0;
        while row_index < x_train.len()
            invariant
                expected_features == x_train[0].len(),
                expected_features > 0,
                x_train.len() == y_train.len(),
                row_index <= x_train.len(),
                forall|q: int| 0 <= q < row_index ==> #[trigger] x_train[q].len() == expected_features,
            decreases x_train.len() - row_index,
        {
            let found = x_train[row_index].len();
            if found == 0 {
                proof {
                    let r = first_row_of_other_len(x_train@, expected_features as nat);
                    assert(x_train@[row_index as int].len() != expected_features);
                    assert(x_train@[row_index as int].len() != x_train@[0].len());
                    assert(r == row_index as int) by {
                        if r < row_index { assert(x_train@[r].len() == expected_features); }
                        if r > row_index { assert(x_train@[row_index as int].len() == expected_features); }
                    }
                }
                return Err(ModelError::EmptyFeatureVector { row_index });
            }
            if found != expected_features {
                proof {
                    let r = first_row_of_other_len(x_train@, expected_features as nat);
                    assert(x_train@[row_index as int].len() != expected_features);
                    assert(x_train@[row_index as int].len() != x_train@[0].len());
                    assert(r == row_index as int) by {
                        if r < row_index { assert(x_train@[r].len() == expected_features); }
                        if r > row_index { assert(x_train@[row_index as int].len() == expected_features); }
                    }
                }
                return Err(
                    ModelError::InconsistentFeatureDimensions { expected: expected_features, found, row_index },
                );
            }
            row_index += 1;
        }
        if n_classes == 0 {
            return Err(ModelError::InvalidClassCount { n_classes });
        }
        if k_values.len() == 0 {
            return Err(ModelError::EmptyKValues);
        }
        proof {
            assert(!(exists|r: int| 0 <= r < x_train@.len() && #[trigger] x_train@[r].len() != x_train@[0].len()));
        }
        let sorted = sorted_unique(&k_values);
        let n_train = x_train.len();
        let mut i: usize = 0;
        while i < sorted.len()
            invariant
                n_train == x_train.len(),
                x_train.len() > 0,
                x_train[0].len() > 0,
                x_train.len() == y_train.len(),
                n_classes > 0,
                k_values.len() > 0,
                forall|q: int| 0 <= q < x_train.len() ==> #[trigger] x_train[q].len() == x_train[0].len(),
                i <= sorted.len(),
                strictly_increasing(sorted@),
                forall|v: usize| sorted@.contains(v) <==> k_values@.contains(v),
                forall|q: int| 0 <= q < i ==> !is_bad_k(#[trigger] sorted[q], n_train as nat),
            decreases sorted.len() - i,
        {
            let k = sorted[i];
            if k == 0 || k >= n_train {
                proof {
                    assert(sorted@.contains(k));
                    assert forall|c: usize| k_values@.contains(c) && is_bad_k(c, n_train as nat) implies k <= c by {
                        assert(sorted@.contains(c));
                        let q = choose|q: int| 0 <= q < sorted.len() && sorted[q] == c;
                        if q < i {
                            assert(!is_bad_k(sorted[q], n_train as nat));
                        } else if q > i {
                            assert(sorted[i as int] < sorted[q]);
                        }
                    }
                    assert(k_values@.contains(k));
                    let w = choose|w: int| 0 <= w < k_values.len() && k_values[w] == k;
                    assert(is_bad_k(k_values@[w], n_train as nat));
                    let b = smallest_bad_k(k_values@, n_train as nat);
                    assert(k_values@.contains(b) && is_bad_k(b, n_train as nat));
                    assert(b <= k && k <= b);
                    assert(!(exists|r: int| 0 <= r < x_train@.len() && #[trigger] x_train@[r].len() != x_train@[0].len()));
                }
                return Err(ModelError::InvalidKValue { k, n_train });
            }
            i += 1;
        }
        proof {
            assert forall|q: int| 0 <= q < k_values.len() implies !is_bad_k(#[trigger] k_values@[q], n_train as nat) by {
                assert(k_values@.contains(k_values@[q]));
                assert(sorted@.contains(k_values@[q]));
            }
        }
        let mut row_index: usize = 0;
        while row_index < y_train.len()
            invariant
                n_classes > 0,
                n_train == x_train.len(),
                x_train.len() > 0,
                x_train[0].len() > 0,
                x_train.len() == y_train.len(),
                n_classes > 0,
                k_values.len() > 0,
                forall|q: int| 0 <= q < x_train.len() ==> #[trigger] x_train[q].len() == x_train[0].len(),
                forall|q: int| 0 <= q < k_values.len() ==> !is_bad_k(#[trigger] k_values@[q], n_train as nat),
                strictly_increasing(sorted@),
                forall|v: usize| sorted@.contains(v) <==> k_values@.contains(v),
                row_index <= y_train.len(),
                forall|q: int| 0 <= q < row_index ==> #[trigger] y_train[q] < n_classes,
            decreases y_train.len() - row_index,
        {
            let label = y_train[row_index];
            if label >= n_classes {
                proof {
                    let r = first_label_out_of_range(y_train@, n_classes);
                    assert(y_train@[row_index as int] >= n_classes);
                    assert(!(exists|r: int| 0 <= r < x_train@.len() && #[trigger] x_train@[r].len() != x_train@[0].len()));
                    assert(!(exists|i: int| 0 <= i < k_values@.len() && is_bad_k(#[trigger] k_values@[i], x_train@.len())));
                    assert(r == row_index as int) by {
                        if r < row_index { assert(y_train@[r] < n_classes); }
                        if r > row_index { assert(y_train@[row_index as int] < n_classes); }
                    }
                }
                return Err(ModelError::LabelOutOfRange { label, n_classes, row_index });
            }
            row_index += 1;
        }
        proof {
            assert forall|q: int| 0 <= q < sorted.len() implies 1 <= #[trigger] sorted@[q] < n_train by {
                assert(sorted@.contains(sorted@[q]));
                assert(k_values@.contains(sorted@[q]));
                let w = choose|w: int| 0 <= w < k_values.len() && k_values[w] == sorted@[q];
                assert(!is_bad_k(k_values@[w], n_train as nat));
            }
        }
        proof {
            assert(!(exists|r: int| 0 <= r < x_train@.len() && #[trigger] x_train@[r].len() != x_train@[0].len()));
            assert(!(exists|i: int| 0 <= i < k_values@.len() && is_bad_k(#[trigger] k_values@[i], x_train@.len())));
            assert(!(exists|r: int| 0 <= r < y_train@.len() && #[trigger] y_train@[r] >= n_classes));
        }
        let m = PnnModel { x_train, y_train, n_classes, k_values: sorted };
        assert(model_error(x_train@, y_train@, n_classes, k_values@) is None);
        assert(m.x_train.len() > 0);
        assert(m.x_train[0].len() > 0);
        assert(forall|r: int| 0 <= r < m.x_train.len() ==> #[trigger] m.x_train[r].len() == m.x_train[0].len());
        assert(m.y_train.len() == m.x_train.len());
        assert(forall|r: int| 0 <= r < m.y_train.len() ==> #[trigger] m.y_train[r] < m.n_classes);
        assert(k_values@.contains(k_values@[0]));
        assert(m.k_values@.contains(k_values@[0]));
        assert(strictly_increasing(m.k_values@));
        assert(forall|i: int| 0 <= i < m.k_values.len() ==> 1 <= #[trigger] m.k_values[i] < m.x_train.len());
        Ok(m)
    }

    /// Largest candidate k: the last one, which is the largest in a validated model.
    pub fn k_max(&self) -> (r: usize)
        requires
            self.k_values.len() > 0,
        ensures
            r == self.k_values@.last(),
            self.wf() ==> forall|i: int| 0 <= i < self.k_values.len() ==> #[trigger] self.k_values[i] <= r,
    {
        self.k_values[self.k_values.len() - 1]
    }

    /// The number of training points.
    pub fn n_train(&self) -> (r: usize)
        ensures
            r == self.x_train.len(),
    {
        self.x_train.len()
    }

    /// The number of features of a training point (0 when there is none).
    pub fn n_features(&self) -> (r: usize)
        ensures
            r == (if self.x_train.len() == 0 { 0 } else { self.x_train[0].len() }),
    {
        if self.x_train.len() == 0 {
            0
        } else {
            self.x_train[0].len()
        }
    }
}

/// The distinct values of `values`, ascending.
pub fn sorted_unique(values: &Vec<usize>) -> (r: Vec<usize>)
    ensures
        strictly_increasing(r@),
        forall|v: usize| r@.contains(v) <==> values@.contains(v),
{
    let mut r: Vec<usize> = Vec::new();
    let mut i: usize = 0;
    while i < values.len()
        invariant
            i <= values.len(),
            strictly_increasing(r@),
            forall|v: usize| r@.contains(v) <==> values@.subrange(0, i as int).contains(v),
        decreases values.len() - i,
    {
        let v = values[i];
        let mut pos: usize = 0;
        while pos < r.len() && r[pos] < v
            invariant
                pos <= r.len(),
                forall|q: int| 0 <= q < pos ==> #[trigger] r[q] < v,
            decreases r.len() - pos,
        {
            pos += 1;
        }
        let ghost before = r@;
        if pos < r.len() && r[pos] == v {
        } else {
            r.insert(pos, v);
            proof {
                assert forall|a: int, b: int| 0 <= a < b < r.len() implies #[trigger] r@[a] < #[trigger] r@[b] by {
                    if a < pos && b == pos {
                    } else if a == pos {
                        assert(before[b - 1] >= v || b - 1 == pos);
                        if b - 1 > pos {
                            assert(before[pos as int] < before[b - 1]);
                        }
                    } else if a < pos && b > pos {
                        assert(before[a] < before[b - 1]);
                    } else if a > pos {
                        assert(before[a - 1] < before[b - 1]);
                    } else {
                        assert(before[a] < before[b]);
                    }
                }
            }
        }
        proof {
            assert forall|w: usize| r@.contains(w) <==> values@.subrange(0, i + 1).contains(w) by {
                let pre = values@.subrange(0, i as int);
                let post = values@.subrange(0, i + 1);
                assert(post =~= pre.push(v));
                if r@.contains(w) && w != v {
                    let q = choose|q: int| 0 <= q < r.len() && r@[q] == w;
                    if before.len() < r.len() {
                        if q < pos {
                            assert(before[q] == w);
                        } else {
                            assert(before[q - 1] == w);
                        }
                    } else {
                        assert(before[q] == w);
                    }
                    assert(before.contains(w));
                    assert(pre.contains(w));
                    let z = choose|z: int| 0 <= z < pre.len() && pre[z] == w;
                    assert(post[z] == w);
                }
                if post.contains(w) && w != v {
                    let z = choose|z: int| 0 <= z < post.len() && post[z] == w;
                    assert(pre[z] == w);
                    assert(pre.contains(w));
                    assert(before.contains(w));
                    let q = choose|q: int| 0 <= q < before.len() && before[q] == w;
                    if before.len() < r.len() {
                        if q < pos {
                            assert(r@[q] == w);
                        } else {
                            assert(r@[q + 1] == w);
                        }
                    } else {
                        assert(r@[q] == w);
                    }
                }
                if w == v {
                    assert(post[i as int] == v);
                    if before.len() < r.len() {
                        assert(r@[pos as int] == v);
                    } else {
                        assert(r@[pos as int] == v);
                    }
                }
            }
        }
        i += 1;
    }
    proof {
        assert(values@.subrange(0, values.len() as int) =~= values@);
    }
    r
}

} // verus!
