//! The integer part of the MCMC diagnostics: run configuration, traces, k frequencies
//! and acceptance counts. Statistics over doubles (means, autocorrelations, effective
//! sample sizes, rates) are computed by the caller from these.
use vstd::prelude::*;
use crate::types::{InferenceMethod, PosteriorDraw, SamplerConfig, SamplerResult};
use std::collections::BTreeMap;

verus! {

#[derive(Debug, Clone, Copy, PartialEq, Eq, Structural)]
pub struct KCandidateRange {
    pub start: usize,
    pub end: usize,
}

/// `v` is the least element of `s` (0 when `s` is empty).
pub open spec fn is_least_or_zero(s: Seq<usize>, v: usize) -> bool {
    if s.len() == 0 {
        v == 0
    } else {
        s.contains(v) && forall|i: int| 0 <= i < s.len() ==> v <= #[trigger] s[i]
    }
}

/// `v` is the greatest element of `s` (0 when `s` is empty).
pub open spec fn is_greatest_or_zero(s: Seq<usize>, v: usize) -> bool {
    if s.len() == 0 {
        v == 0
    } else {
        s.contains(v) && forall|i: int| 0 <= i < s.len() ==> #[trigger] s[i] <= v
    }
}

/// The smallest and the largest candidate k (0 and 0 when there is none).
pub fn k_candidate_range(k_candidates: &Vec<usize>) -> (r: KCandidateRange)
    ensures
        is_least_or_zero(k_candidates@, r.start),
        is_greatest_or_zero(k_candidates@, r.end),
{
    if k_candidates.len() == 0 {
        return KCandidateRange { start: 0, end: 0 };
    }
    let mut lo = k_candidates[0];
    let mut hi = k_candidates[0];
    let mut i: usize = 1;
    proof {
        assert(k_candidates@.subrange(0, 1)[0] == lo);
    }
    while i < k_candidates.len()
        invariant
            1 <= i <= k_candidates.len(),
            k_candidates@.subrange(0, i as int).contains(lo),
            k_candidates@.subrange(0, i as int).contains(hi),
            forall|q: int| 0 <= q < i ==> lo <= #[trigger] k_candidates[q] <= hi,
        decreases k_candidates.len() - i,
    {
        let v = k_candidates[i];
        let ghost pre = k_candidates@.subrange(0, i as int);
        let ghost post = k_candidates@.subrange(0, i + 1);
        proof {
            assert(post =~= pre.push(v));
            let a = choose|a: int| 0 <= a < pre.len() && pre[a] == lo;
            assert(post[a] == lo);
            let b = choose|b: int| 0 <= b < pre.len() && pre[b] == hi;
            assert(post[b] == hi);
            assert(post[i as int] == v);
        }
        if v < lo {
            lo = v;
        }
        if v > hi {
            hi = v;
        }
        i += 1;
    }
    proof {
        assert(k_candidates@.subrange(0, k_candidates.len() as int) =~= k_candidates@);
    }
    KCandidateRange { start: lo, end: hi }
}

/// The largest autocorrelation lag reported: a quarter of the samples, at most 50.
pub fn acf_max_lag(n_samples: usize) -> (r: usize)
    ensures
        r == if n_samples / 4 < 50 { n_samples / 4 } else { 50 },
{
    let q = n_samples / 4;
    if q < 50 {
        q
    } else {
        50
    }
}

/// The k of every draw, in order.
pub fn k_trace(draws: &Vec<PosteriorDraw>) -> (r: Vec<usize>)
    ensures
        r.len() == draws.len(),
        forall|i: int| 0 <= i < r.len() ==> #[trigger] r[i] == draws[i].k,
{
    let mut r: Vec<usize> = Vec::new();
    let mut i: usize = 0;
    while i < draws.len()
        invariant
            i <= draws.len(),
            r.len() == i,
            forall|q: int| 0 <= q < i ==> #[trigger] r[q] == draws[q].k,
        decreases draws.len() - i,
    {
        r.push(draws[i].k);
        i += 1;
    }
    r
}

/// The beta of every draw (bit patterns), in order.
pub fn beta_trace(draws: &Vec<PosteriorDraw>) -> (r: Vec<u64>)
    ensures
        r.len() == draws.len(),
        forall|i: int| 0 <= i < r.len() ==> #[trigger] r[i] == draws[i].beta,
{
    let mut r: Vec<u64> = Vec::new();
    let mut i: usize = 0;
    while i < draws.len()
        invariant
            i <= draws.len(),
            r.len() == i,
            forall|q: int| 0 <= q < i ==> #[trigger] r[q] == draws[q].beta,
        decreases draws.len() - i,
    {
        r.push(draws[i].beta);
        i += 1;
    }
    r
}

/// How often `k` occurs in `trace`.
pub open spec fn occurrences(trace: Seq<usize>, k: usize) -> nat
    decreases trace.len(),
{
    if trace.len() == 0 {
        0
    } else {
        occurrences(trace.drop_last(), k) + (if trace.last() == k { 1nat } else { 0nat })
    }
}

proof fn lemma_occurrences_bound(trace: Seq<usize>, k: usize)
    ensures
        occurrences(trace, k) <= trace.len(),
    decreases trace.len(),
{
    if trace.len() > 0 {
        lemma_occurrences_bound(trace.drop_last(), k);
    }
}

proof fn lemma_occurrences_zero(trace: Seq<usize>, k: usize)
    requires
        occurrences(trace, k) > 0,
    ensures
        trace.contains(k),
    decreases trace.len(),
{
    if trace.last() == k {
        assert(trace[trace.len() - 1] == k);
    } else {
        lemma_occurrences_zero(trace.drop_last(), k);
        let i = choose|i: int| 0 <= i < trace.len() - 1 && trace.drop_last()[i] == k;
        assert(trace[i] == k);
    }
}

/// The frequency table of a trace: each value that occurs, with how often it occurs.
pub open spec fn frequency_map(trace: Seq<usize>) -> Map<usize, usize> {
    Map::new(|k: usize| trace.contains(k), |k: usize| occurrences(trace, k) as usize)
}

/// The frequency table of a k trace: each distinct k (a `BTreeMap` keeps them
/// ascending) with the number of times it occurs.
pub fn k_frequencies(trace: &Vec<usize>) -> (r: BTreeMap<usize, usize>)
    ensures
        r@ == frequency_map(trace@),
{
    broadcast use vstd::std_specs::btree::group_btree_axioms;

    let mut m: BTreeMap<usize, usize> = BTreeMap::new();
    let mut i: usize = 0;
    proof {
        assert(m@ =~= frequency_map(trace@.take(0)));
    }
    while i < trace.len()
        invariant
            i <= trace.len(),
            m@ == frequency_map(trace@.take(i as int)),
        decreases trace.len() - i,
    {
        let k = trace[i];
        let ghost pre = trace@.take(i as int);
        let ghost post = trace@.take(i + 1);
        proof {
            assert(post.drop_last() =~= pre);
            assert(post.last() == k);
            lemma_occurrences_bound(pre, k);
        }
        let c: usize = match m.get(&k) {
            Some(c) => *c,
            None => 0,
        };
        proof {
            if !pre.contains(k) {
                if occurrences(pre, k) > 0 {
                    lemma_occurrences_zero(pre, k);
                }
            }
            assert(c == occurrences(pre, k));
        }
        m.insert(k, c + 1);
        proof {
            assert forall|x: usize| post.contains(x) <==> pre.contains(x) || x == k by {
                if pre.contains(x) {
                    let z = choose|z: int| 0 <= z < pre.len() && pre[z] == x;
                    assert(post[z] == x);
                }
                if post.contains(x) && x != k {
                    let z = choose|z: int| 0 <= z < post.len() && post[z] == x;
                    assert(z < i);
                    assert(pre[z] == x);
                }
                if x == k {
                    assert(post[i as int] == k);
                }
            }
            assert(m@ =~= frequency_map(post));
        }
        i += 1;
    }
    proof {
        assert(trace@.take(trace.len() as int) =~= trace@);
    }
    m
}

/// The distinct values of a trace, in the order they first occur.
pub open spec fn distinct_values(trace: Seq<usize>) -> Seq<usize>
    decreases trace.len(),
{
    if trace.len() == 0 {
        Seq::empty()
    } else if trace.drop_last().contains(trace.last()) {
        distinct_values(trace.drop_last())
    } else {
        distinct_values(trace.drop_last()).push(trace.last())
    }
}

/// The sum of the values of `m` at `keys`.
pub open spec fn total_over(m: Map<usize, usize>, keys: Seq<usize>) -> int
    decreases keys.len(),
{
    if keys.len() == 0 {
        0
    } else {
        total_over(m, keys.drop_last()) + m[keys.last()]
    }
}

proof fn lemma_total_agree(m1: Map<usize, usize>, m2: Map<usize, usize>, keys: Seq<usize>)
    requires
        forall|i: int| 0 <= i < keys.len() ==> m1[#[trigger] keys[i]] == m2[keys[i]],
    ensures
        total_over(m1, keys) == total_over(m2, keys),
    decreases keys.len(),
{
    if keys.len() > 0 {
        let rest = keys.drop_last();
        assert forall|i: int| 0 <= i < rest.len() implies m1[#[trigger] rest[i]] == m2[rest[i]] by {
            assert(rest[i] == keys[i]);
        }
        lemma_total_agree(m1, m2, rest);
        assert(keys.last() == keys[keys.len() - 1]);
    }
}

proof fn lemma_total_bump(m1: Map<usize, usize>, m2: Map<usize, usize>, keys: Seq<usize>, x: usize)
    requires
        keys.no_duplicates(),
        keys.contains(x),
        forall|i: int| 0 <= i < keys.len() && keys[i] != x ==> m1[#[trigger] keys[i]] == m2[keys[i]],
    ensures
        total_over(m2, keys) == total_over(m1, keys) - m1[x] + m2[x],
    decreases keys.len(),
{
    let rest = keys.drop_last();
    if keys.last() == x {
        assert forall|i: int| 0 <= i < rest.len() implies m1[#[trigger] rest[i]] == m2[rest[i]] by {
            assert(rest[i] == keys[i]);
            assert(keys[i] != keys[keys.len() - 1]);
        }
        lemma_total_agree(m1, m2, rest);
    } else {
        let z = choose|z: int| 0 <= z < keys.len() && keys[z] == x;
        assert(z != keys.len() - 1);
        assert(rest[z] == x);
        assert(rest.no_duplicates()) by {
            assert forall|a: int, b: int| 0 <= a < rest.len() && 0 <= b < rest.len() && a != b implies rest[a] != rest[b] by {
                assert(rest[a] == keys[a] && rest[b] == keys[b]);
            }
        }
        assert forall|i: int| 0 <= i < rest.len() && rest[i] != x implies m1[#[trigger] rest[i]] == m2[rest[i]] by {
            assert(rest[i] == keys[i]);
        }
        lemma_total_bump(m1, m2, rest, x);
    }
}

/// The counts of a k trace's frequency table, summed over its distinct values (each
/// once), make up the whole trace.
pub proof fn lemma_frequencies_sum_to_length(trace: Seq<usize>)
    requires
        trace.len() <= usize::MAX,
    ensures
        distinct_values(trace).no_duplicates(),
        forall|k: usize| distinct_values(trace).contains(k) <==> trace.contains(k),
        total_over(frequency_map(trace), distinct_values(trace)) == trace.len(),
    decreases trace.len(),
{
    if trace.len() == 0 {
        assert(distinct_values(trace) =~= Seq::<usize>::empty());
    } else {
        let rest = trace.drop_last();
        let x = trace.last();
        lemma_frequencies_sum_to_length(rest);
        let d = distinct_values(rest);
        assert(trace =~= rest.push(x));
        assert forall|k: usize| trace.contains(k) <==> rest.contains(k) || k == x by {
            if rest.contains(k) {
                let z = choose|z: int| 0 <= z < rest.len() && rest[z] == k;
                assert(trace[z] == k);
            }
            if trace.contains(k) && k != x {
                let z = choose|z: int| 0 <= z < trace.len() && trace[z] == k;
                assert(z < rest.len());
                assert(rest[z] == k);
            }
            if k == x {
                assert(trace[trace.len() - 1] == x);
            }
        }
        lemma_occurrences_bound(trace, x);
        lemma_occurrences_bound(rest, x);
        assert(trace.drop_last() =~= rest);
        assert forall|k: usize| k != x && rest.contains(k) implies frequency_map(trace)[k] == frequency_map(rest)[k] by {
            assert(trace.contains(k));
            assert(occurrences(trace, k) == occurrences(rest, k));
        }
        assert forall|i: int| 0 <= i < d.len() && d[i] != x implies frequency_map(trace)[#[trigger] d[i]] == frequency_map(rest)[d[i]] by {
            assert(d.contains(d[i]));
        }
        if rest.contains(x) {
            lemma_total_bump(frequency_map(rest), frequency_map(trace), d, x);
        } else {
            if occurrences(rest, x) > 0 {
                lemma_occurrences_zero(rest, x);
            }
            let dt = d.push(x);
            assert(distinct_values(trace) == dt);
            assert(dt.drop_last() =~= d);
            assert forall|i: int| 0 <= i < d.len() implies frequency_map(trace)[#[trigger] d[i]] == frequency_map(rest)[d[i]] by {
                assert(d.contains(d[i]));
                assert(d[i] != x);
            }
            lemma_total_agree(frequency_map(trace), frequency_map(rest), d);
            assert forall|a: int, b: int| 0 <= a < dt.len() && 0 <= b < dt.len() && a != b implies dt[a] != dt[b] by {
                if a < d.len() && b < d.len() {
                    assert(dt[a] == d[a] && dt[b] == d[b]);
                } else if a < d.len() {
                    assert(d.contains(dt[a]));
                } else {
                    assert(d.contains(dt[b]));
                }
            }
            assert forall|k: usize| dt.contains(k) <==> trace.contains(k) by {
                if dt.contains(k) && k != x {
                    let z = choose|z: int| 0 <= z < dt.len() && dt[z] == k;
                    assert(z < d.len());
                    assert(d[z] == k);
                }
                if d.contains(k) {
                    let z = choose|z: int| 0 <= z < d.len() && d[z] == k;
                    assert(dt[z] == k);
                }
                if k == x {
                    assert(dt[d.len() as int] == x);
                }
            }
        }
    }
}


#[derive(Debug, Clone, PartialEq, Eq)]
pub struct DiagnosticsConfig {
    pub method: InferenceMethod,
    pub n_samples: usize,
    pub burn_in: usize,
    pub thinning: usize,
    /// Bit pattern of the double.
    pub beta_step: u64,
    /// Bit pattern of the double.
    pub beta_sigma: u64,
    pub k_candidates: KCandidateRange,
    pub total_iterations: usize,
}

/// Burn-in traces for convergence inspection. `k_trace` is present only for `JointMh`:
/// the Hybrid sampler's Gibbs step has no accept/reject for k.
#[derive(Debug, Clone, PartialEq, Eq)]
pub struct BurnInDiagnostics {
    /// Bit patterns of the burn-in betas.
    pub beta_trace: Vec<u64>,
    pub k_trace: Option<Vec<usize>>,
}

/// The integer part of the diagnostics of a sampler run.
#[derive(Debug, Clone, PartialEq, Eq)]
pub struct DiagnosticsCounts {
    pub config: DiagnosticsConfig,
    /// Proposals accepted after burn-in.
    pub n_accepted: usize,
    /// One proposal per post-burn-in iteration: `n_samples * thinning`.
    pub n_proposed: usize,
    /// The largest autocorrelation lag to report.
    pub max_lag: usize,
    /// Bit patterns of the kept betas.
    pub beta_trace: Vec<u64>,
    pub k_trace: Vec<usize>,
    /// Each distinct kept k, ascending, with how often it was kept.
    pub k_frequencies: BTreeMap<usize, usize>,
    pub burn_in: BurnInDiagnostics,
}

/// Gathers the diagnostics of a run that do not need arithmetic on doubles.
pub fn build_diagnostics(
    result: &SamplerResult,
    sampler_config: &SamplerConfig,
    k_candidates: &Vec<usize>,
) -> (d: DiagnosticsCounts)
    requires
        sampler_config.n_samples * sampler_config.thinning <= usize::MAX,
    ensures
        d.config.method == sampler_config.method,
        d.config.n_samples == sampler_config.n_samples,
        d.config.burn_in == sampler_config.burn_in,
        d.config.thinning == sampler_config.thinning,
        d.config.beta_step == sampler_config.beta_step,
        d.config.beta_sigma == sampler_config.beta_sigma,
        is_least_or_zero(k_candidates@, d.config.k_candidates.start),
        is_greatest_or_zero(k_candidates@, d.config.k_candidates.end),
        d.config.total_iterations == result.total_iters,
        d.n_accepted == result.n_accepted,
        d.n_proposed == sampler_config.n_samples * sampler_config.thinning,
        d.max_lag == if sampler_config.n_samples / 4 < 50 { sampler_config.n_samples / 4 } else { 50 },
        d.beta_trace.len() == result.chain.len(),
        forall|i: int| 0 <= i < d.beta_trace.len() ==> #[trigger] d.beta_trace[i] == result.chain[i].beta,
        d.k_trace.len() == result.chain.len(),
        forall|i: int| 0 <= i < d.k_trace.len() ==> #[trigger] d.k_trace[i] == result.chain[i].k,
        d.k_frequencies@ == frequency_map(d.k_trace@),
        total_over(d.k_frequencies@, distinct_values(d.k_trace@)) == result.chain.len(),
        d.burn_in.beta_trace.len() == result.burn_in_chain.len(),
        forall|i: int|
            0 <= i < d.burn_in.beta_trace.len() ==> #[trigger] d.burn_in.beta_trace[i]
                == result.burn_in_chain[i].beta,
        match d.burn_in.k_trace {
            Some(t) => sampler_config.method == InferenceMethod::JointMh && t.len()
                == result.burn_in_chain.len() && forall|i: int|
                0 <= i < t.len() ==> #[trigger] t[i] == result.burn_in_chain[i].k,
            None => sampler_config.method == InferenceMethod::Hybrid,
        },
{
    let config = DiagnosticsConfig {
        method: sampler_config.method,
        n_samples: sampler_config.n_samples,
        burn_in: sampler_config.burn_in,
        thinning: sampler_config.thinning,
        beta_step: sampler_config.beta_step,
        beta_sigma: sampler_config.beta_sigma,
        k_candidates: k_candidate_range(k_candidates),
        total_iterations: result.total_iters,
    };
    let beta = beta_trace(&result.chain);
    let ks = k_trace(&result.chain);
    let frequencies = k_frequencies(&ks);
    let burn_in_k = match sampler_config.method {
        InferenceMethod::JointMh => Some(k_trace(&result.burn_in_chain)),
        InferenceMethod::Hybrid => None,
    };
    proof {
        lemma_frequencies_sum_to_length(ks@);
    }
    let d = DiagnosticsCounts {
        config,
        n_accepted: result.n_accepted,
        n_proposed: sampler_config.n_samples * sampler_config.thinning,
        max_lag: acf_max_lag(sampler_config.n_samples),
        beta_trace: beta,
        k_trace: ks,
        k_frequencies: frequencies,
        burn_in: BurnInDiagnostics { beta_trace: beta_trace(&result.burn_in_chain), k_trace: burn_in_k },
    };
    d
}

} // verus!
