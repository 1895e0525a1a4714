//! Bookkeeping of the MCMC samplers: which iterations are burn-in, which post-burn-in
//! draws the chain keeps after thinning, and how many proposals were accepted; and the
//! random choices of the sampler that are integers.
//!
//! The samplers' arithmetic on `beta` and on log-densities is floating point and is
//! done by the caller, which reports every iteration's outcome to a `ChainRecorder`.
use vstd::prelude::*;
use vstd::arithmetic::div_mod::{lemma_fundamental_div_mod, lemma_fundamental_div_mod_converse};
use rand::rngs::{OsRng, StdRng};
use rand::Rng;
use rand::SeedableRng;
use crate::types::{PosteriorDraw, SamplerConfig, SamplerResult};

verus! {

#[verifier::external_type_specification]
#[verifier::external_body]
pub struct ExStdRng(StdRng);

#[verifier::external_type_specification]
#[verifier::external_body]
pub struct ExRandError(rand::Error);

/// The generator that `StdRng::seed_from_u64(seed)` makes. rand_core builds it from the
/// seed alone (a PCG32 expansion of `seed` into the ChaCha key, with no other input), so
/// the same seed always gives the same generator.
pub uninterp spec fn seeded_generator(seed: u64) -> StdRng;

/// `StdRng::seed_from_u64` (rand's `SeedableRng`): the generator named by
/// `seeded_generator(seed)`; it does not panic.
#[verifier::external_body]
fn seeded_rng(seed: u64) -> (r: StdRng)
    ensures
        r == seeded_generator(seed),
{
    StdRng::seed_from_u64(seed)
}

/// `StdRng::from_rng(OsRng)` (rand's `SeedableRng`): a generator seeded from the operating
/// system's randomness, or rand's error when the operating system provides none. It does
/// not panic. Nothing is stated about which outcome comes or about the stream.
#[verifier::external_body]
fn entropy_rng() -> Result<StdRng, rand::Error> {
    StdRng::from_rng(OsRng)
}

/// `Rng::gen_range(0..n)` on a `StdRng`: a uniformly drawn integer of `0..n`; it panics
/// on an empty range, which `requires` leaves out. Which integer is drawn depends on the
/// generator's state and is not stated.
#[verifier::external_body]
fn uniform_below(rng: &mut StdRng, n: usize) -> (r: usize)
    requires
        n > 0,
    ensures
        r < n,
{
    rng.gen_range(0..n)
}

/// Why no generator could be made: the operating system provided no randomness.
#[derive(Debug, Clone, Copy, PartialEq, Eq, Structural)]
pub enum RngError {
    NoEntropy,
}

/// The sampler's random generator: the one `seed` fixes when given, one seeded from fresh
/// operating-system entropy otherwise (failing only when there is none).
pub fn make_rng(seed: Option<u64>) -> (r: Result<StdRng, RngError>)
    ensures
        seed matches Some(s) ==> r == Ok::<StdRng, RngError>(seeded_generator(s)),
{
    match seed {
        Some(s) => Ok(seeded_rng(s)),
        None => match entropy_rng() {
            Ok(g) => Ok(g),
            Err(_) => Err(RngError::NoEntropy),
        },
    }
}

/// The joint Metropolis-Hastings proposal for k: an index drawn uniformly from the
/// `n_candidates` candidate positions, independent of the current one.
pub fn propose_k_index(rng: &mut StdRng, n_candidates: usize) -> (r: usize)
    requires
        n_candidates > 0,
    ensures
        r < n_candidates,
{
    uniform_below(rng, n_candidates)
}

/// One sampler iteration as reported to the recorder: the k index and beta (bit pattern)
/// that the chain holds after the iteration, and whether its proposal was accepted.
pub type IterationOutcome = (usize, u64, bool);

/// The iterations the sampler runs: burn-in, then `thinning` iterations per kept draw.
pub open spec fn total_iterations(burn_in: nat, n_samples: nat, thinning: nat) -> nat {
    burn_in + n_samples * thinning
}

/// How many of `d` post-burn-in iterations are kept when every `t`-th one is (the first
/// of them included).
pub open spec fn kept_count(d: int, t: int) -> int {
    (d + t - 1) / t
}

/// The draw that an iteration outcome stands for.
pub open spec fn draw_of(k_values: Seq<usize>, e: IterationOutcome) -> PosteriorDraw {
    PosteriorDraw { k_index: e.0, k: k_values[e.0 as int], beta: e.1 }
}

/// The draws of the burn-in iterations among `events`, in order.
pub open spec fn burn_in_draws(k_values: Seq<usize>, events: Seq<IterationOutcome>, burn_in: nat) -> Seq<
    PosteriorDraw,
> {
    Seq::new(
        if events.len() < burn_in { events.len() } else { burn_in },
        |i: int| draw_of(k_values, events[i]),
    )
}

/// The draws the chain keeps: post-burn-in iterations `0, t, 2t, ...`.
pub open spec fn kept_draws(
    k_values: Seq<usize>,
    events: Seq<IterationOutcome>,
    burn_in: nat,
    thinning: nat,
) -> Seq<PosteriorDraw> {
    Seq::new(
        if events.len() > burn_in { kept_count(events.len() - burn_in, thinning as int) as nat } else { 0 },
        |q: int| draw_of(k_values, events[kept_position(burn_in, thinning, q)]),
    )
}

/// The iteration that holds the chain's `q`-th kept draw.
pub open spec fn kept_position(burn_in: nat, thinning: nat, q: int) -> int {
    burn_in + q * thinning
}

/// The chain's `q`-th kept draw is the outcome reported by post-burn-in iteration
/// `q * thinning`: its k index and beta are those that iteration reported, and its k is
/// the candidate at that index.
pub proof fn lemma_draws_are_reported_outcomes(
    k_values: Seq<usize>,
    events: Seq<IterationOutcome>,
    burn_in: nat,
    thinning: nat,
    q: int,
)
    requires
        thinning >= 1,
        0 <= q < kept_draws(k_values, events, burn_in, thinning).len(),
    ensures
        burn_in + q * thinning < events.len(),
        kept_draws(k_values, events, burn_in, thinning)[q] == (PosteriorDraw {
            k_index: events[burn_in + q * thinning].0,
            k: k_values[events[burn_in + q * thinning].0 as int],
            beta: events[burn_in + q * thinning].1,
        }),
{
    lemma_kept_below(events.len() - burn_in, thinning as int, q);
}

/// The `i`-th burn-in draw is the outcome reported by iteration `i`.
pub proof fn lemma_burn_in_draws_are_reported_outcomes(
    k_values: Seq<usize>,
    events: Seq<IterationOutcome>,
    burn_in: nat,
    i: int,
)
    requires
        0 <= i < burn_in_draws(k_values, events, burn_in).len(),
    ensures
        i < events.len(),
        i < burn_in,
        burn_in_draws(k_values, events, burn_in)[i] == (PosteriorDraw {
            k_index: events[i].0,
            k: k_values[events[i].0 as int],
            beta: events[i].1,
        }),
{
}

/// How many iterations from position `from` on had their proposal accepted.
pub open spec fn accepted_after(events: Seq<IterationOutcome>, from: int) -> nat
    decreases events.len(),
{
    if events.len() == 0 || events.len() <= from {
        0
    } else {
        accepted_after(events.drop_last(), from) + (if events.last().2 { 1nat } else { 0nat })
    }
}

proof fn lemma_accepted_bound(events: Seq<IterationOutcome>, from: int)
    requires
        0 <= from,
    ensures
        accepted_after(events, from) <= if events.len() <= from { 0 } else { events.len() - from },
    decreases events.len(),
{
    if events.len() > from {
        lemma_accepted_bound(events.drop_last(), from);
    }
}

proof fn lemma_kept_step(d: int, t: int)
    requires
        d >= 0,
        t >= 1,
    ensures
        d % t == 0 ==> kept_count(d + 1, t) == kept_count(d, t) + 1 && d == kept_count(d, t) * t,
        d % t != 0 ==> kept_count(d + 1, t) == kept_count(d, t),
        kept_count(d, t) >= 0,
        d == 0 ==> kept_count(d, t) == 0,
{
    if d == 0 {
        lemma_fundamental_div_mod_converse(t - 1, t, 0, t - 1);
    }
    lemma_fundamental_div_mod(d, t);
    let q = d / t;
    let r = d % t;
    assert(d == t * q + r);
    assert(q >= 0) by (nonlinear_arith)
        requires
            d >= 0,
            t >= 1,
            0 <= r < t,
            d == t * q + r,
    ;
    assert(t * q == q * t) by (nonlinear_arith);
    assert((q + 1) * t == q * t + t) by (nonlinear_arith);
    if r == 0 {
        lemma_fundamental_div_mod_converse(d + t - 1, t, q, t - 1);
        lemma_fundamental_div_mod_converse(d + t, t, q + 1, 0);
    } else {
        lemma_fundamental_div_mod_converse(d + t - 1, t, q + 1, r - 1);
        lemma_fundamental_div_mod_converse(d + t, t, q + 1, r);
    }
}

proof fn lemma_kept_total(n: int, t: int)
    requires
        n >= 0,
        t >= 1,
    ensures
        kept_count(n * t, t) == n,
{
    lemma_fundamental_div_mod_converse(n * t + t - 1, t, n, t - 1);
}

/// Records the outcome of every sampler iteration and assembles the sampler's result.
pub struct ChainRecorder {
    k_values: Vec<usize>,
    burn_in: usize,
    n_samples: usize,
    thinning: usize,
    total_iters: usize,
    step: usize,
    chain: Vec<PosteriorDraw>,
    burn_in_chain: Vec<PosteriorDraw>,
    n_accepted: usize,
    events: Ghost<Seq<IterationOutcome>>,
}

impl ChainRecorder {
    /// The recorder's invariant: its draws, burn-in draws and acceptance count are those
    /// of the outcomes recorded so far.
    pub closed spec fn wf(self) -> bool {
        &&& self.thinning >= 1
        &&& self.k_values.len() > 0
        &&& self.total_iters == total_iterations(
            self.burn_in as nat,
            self.n_samples as nat,
            self.thinning as nat,
        )
        &&& self.step == self.events@.len()
        &&& self.events@.len() <= self.total_iters
        &&& forall|i: int| 0 <= i < self.events@.len() ==> (#[trigger] self.events@[i]).0 < self.k_values.len()
        &&& self.chain@ == kept_draws(self.k_values@, self.events@, self.burn_in as nat, self.thinning as nat)
        &&& self.burn_in_chain@ == burn_in_draws(self.k_values@, self.events@, self.burn_in as nat)
        &&& self.n_accepted == accepted_after(self.events@, self.burn_in as int)
    }

    /// The candidate k values the recorded k indices point into.
    pub closed spec fn candidates(&self) -> Seq<usize> {
        self.k_values@
    }

    /// The outcomes recorded so far, in iteration order.
    pub closed spec fn recorded(&self) -> Seq<IterationOutcome> {
        self.events@
    }

    /// (burn-in, n_samples, thinning) of the run being recorded.
    pub closed spec fn schedule(&self) -> (nat, nat, nat) {
        (self.burn_in as nat, self.n_samples as nat, self.thinning as nat)
    }

    /// A recorder for a run over `k_values` with the schedule of `config`.
    pub fn new(k_values: &Vec<usize>, config: &SamplerConfig) -> (r: ChainRecorder)
        requires
            k_values.len() > 0,
            config.thinning >= 1,
            total_iterations(config.burn_in as nat, config.n_samples as nat, config.thinning as nat)
                <= usize::MAX,
        ensures
            r.wf(),
            r.candidates() == k_values@,
            r.recorded() == Seq::<IterationOutcome>::empty(),
            r.schedule() == (config.burn_in as nat, config.n_samples as nat, config.thinning as nat),
    {
        let prod = config.n_samples * config.thinning;
        let total = config.burn_in + prod;
        let r = ChainRecorder {
            k_values: k_values.clone(),
            burn_in: config.burn_in,
            n_samples: config.n_samples,
            thinning: config.thinning,
            total_iters: total,
            step: 0,
            chain: Vec::new(),
            burn_in_chain: Vec::new(),
            n_accepted: 0,
            events: Ghost(Seq::empty()),
        };
        proof {
            assert(r.k_values@ =~= k_values@);
            assert(r.chain@ =~= kept_draws(r.k_values@, r.events@, r.burn_in as nat, r.thinning as nat));
            assert(r.burn_in_chain@ =~= burn_in_draws(r.k_values@, r.events@, r.burn_in as nat));
        }
        r
    }

    /// The k index both samplers start from: the median candidate position.
    pub fn initial_k_index(&self) -> (r: usize)
        requires
            self.wf(),
        ensures
            r == self.candidates().len() / 2,
            r < self.candidates().len(),
    {
        self.k_values.len() / 2
    }

    /// The total number of iterations: burn-in plus `thinning` per kept draw.
    pub fn total_iters(&self) -> (r: usize)
        requires
            self.wf(),
        ensures
            r == total_iterations(self.schedule().0, self.schedule().1, self.schedule().2),
    {
        self.total_iters
    }

    /// Whether every iteration of the run has been recorded.
    pub fn is_done(&self) -> (r: bool)
        requires
            self.wf(),
        ensures
            r == (self.recorded().len() == total_iterations(
                self.schedule().0,
                self.schedule().1,
                self.schedule().2,
            )),
    {
        self.step == self.total_iters
    }

    /// Records one iteration: a burn-in iteration goes to the burn-in chain; a later one
    /// counts its acceptance and, on every `thinning`-th iteration, adds a chain draw.
    pub fn record(&mut self, k_index: usize, beta: u64, accepted: bool)
        requires
            old(self).wf(),
            old(self).recorded().len() < total_iterations(
                old(self).schedule().0,
                old(self).schedule().1,
                old(self).schedule().2,
            ),
            k_index < old(self).candidates().len(),
        ensures
            final(self).wf(),
            final(self).candidates() == old(self).candidates(),
            final(self).schedule() == old(self).schedule(),
            final(self).recorded() == old(self).recorded().push((k_index, beta, accepted)),
    {
        let step = self.step;
        let ghost old_events = self.events@;
        let ghost old_chain = self.chain@;
        let ghost ev: IterationOutcome = (k_index, beta, accepted);
        let draw = PosteriorDraw { k_index, k: self.k_values[k_index], beta };
        let ghost new_events = old_events.push(ev);
        proof {
            lemma_accepted_bound(old_events, self.burn_in as int);
            assert(new_events.drop_last() =~= old_events);
        }
        if step < self.burn_in {
            self.burn_in_chain.push(draw);
            proof {
                assert(self.burn_in_chain@ =~= burn_in_draws(self.k_values@, new_events, self.burn_in as nat));
                assert(kept_draws(self.k_values@, new_events, self.burn_in as nat, self.thinning as nat)
                    =~= kept_draws(self.k_values@, old_events, self.burn_in as nat, self.thinning as nat));
            }
        } else {
            if accepted {
                self.n_accepted = self.n_accepted + 1;
            }
            let d = step - self.burn_in;
            proof {
                lemma_kept_step(d as int, self.thinning as int);
                assert(burn_in_draws(self.k_values@, new_events, self.burn_in as nat)
                    =~= burn_in_draws(self.k_values@, old_events, self.burn_in as nat));
            }
            if d % self.thinning == 0 {
                self.chain.push(draw);
                proof {
                    let kc = kept_count(d as int, self.thinning as int);
                    assert(self.burn_in + kc * self.thinning == step);
                    assert(self.chain@ =~= kept_draws(
                        self.k_values@,
                        new_events,
                        self.burn_in as nat,
                        self.thinning as nat,
                    )) by {
                        let kd = kept_draws(self.k_values@, new_events, self.burn_in as nat, self.thinning as nat);
                        assert(old_chain.len() == kc);
                        assert(kd.len() == kc + 1);
                        assert(self.chain@.len() == kc + 1);
                        assert forall|q: int| 0 <= q < kc + 1 implies #[trigger] self.chain@[q] == kd[q] by {
                            if q < kc {
                                assert(self.chain@[q] == old_chain[q]);
                                assert(q * self.thinning < kc * self.thinning) by (nonlinear_arith)
                                    requires
                                        q < kc,
                                        self.thinning >= 1,
                                ;
                                assert(new_events[kept_position(self.burn_in as nat, self.thinning as nat, q)]
                                    == old_events[kept_position(self.burn_in as nat, self.thinning as nat, q)]);
                            } else {
                                assert(kept_position(self.burn_in as nat, self.thinning as nat, q) == step);
                            }
                        }
                    }
                }
            } else {
                proof {
                    let kc = kept_count(d as int, self.thinning as int);
                    assert(self.chain@ =~= kept_draws(
                        self.k_values@,
                        new_events,
                        self.burn_in as nat,
                        self.thinning as nat,
                    )) by {
                        let kd = kept_draws(self.k_values@, new_events, self.burn_in as nat, self.thinning as nat);
                        assert forall|q: int| 0 <= q < kc implies #[trigger] self.chain@[q] == kd[q] by {
                            lemma_kept_below(d as int, self.thinning as int, q);
                            assert(new_events[kept_position(self.burn_in as nat, self.thinning as nat, q)]
                                == old_events[kept_position(self.burn_in as nat, self.thinning as nat, q)]);
                        }
                    }
                }
            }
        }
        self.events = Ghost(new_events);
        self.step = step + 1;
    }

    /// The sampler's result once every iteration has been recorded: the burn-in draws,
    /// the kept draws, the acceptances after burn-in and the iteration count.
    pub fn finish(self) -> (r: SamplerResult)
        requires
            self.wf(),
            self.recorded().len() == total_iterations(self.schedule().0, self.schedule().1, self.schedule().2),
        ensures
            r.total_iters == total_iterations(self.schedule().0, self.schedule().1, self.schedule().2),
            r.burn_in_chain@ == burn_in_draws(self.candidates(), self.recorded(), self.schedule().0),
            r.chain@ == kept_draws(self.candidates(), self.recorded(), self.schedule().0, self.schedule().2),
            r.n_accepted == accepted_after(self.recorded(), self.schedule().0 as int),
            r.burn_in_chain.len() == self.schedule().0,
            r.chain.len() == self.schedule().1,
            r.n_accepted <= self.schedule().1 * self.schedule().2,
            self.schedule().2 == 1 ==> r.n_accepted <= self.schedule().1,
            forall|i: int|
                0 <= i < r.chain.len() ==> (#[trigger] r.chain[i]).k_index < self.candidates().len()
                    && r.chain[i].k == self.candidates()[r.chain[i].k_index as int],
            forall|i: int|
                0 <= i < r.burn_in_chain.len() ==> (#[trigger] r.burn_in_chain[i]).k_index
                    < self.candidates().len() && r.burn_in_chain[i].k
                    == self.candidates()[r.burn_in_chain[i].k_index as int],
            forall|q: int|
                0 <= q < r.chain.len() ==> (#[trigger] r.chain[q]).k_index == self.recorded()[self.schedule().0
                    + q * self.schedule().2].0 && r.chain[q].beta == self.recorded()[self.schedule().0 + q
                    * self.schedule().2].1,
            forall|i: int|
                0 <= i < r.burn_in_chain.len() ==> (#[trigger] r.burn_in_chain[i]).k_index
                    == self.recorded()[i].0 && r.burn_in_chain[i].beta == self.recorded()[i].1,
    {
        proof {
            let b = self.burn_in as int;
            let n = self.n_samples as int;
            let t = self.thinning as int;
            assert(n * t >= 0) by (nonlinear_arith)
                requires
                    n >= 0,
                    t >= 1,
            ;
            lemma_accepted_bound(self.events@, b);
            assert(t == 1 ==> n * t == n) by (nonlinear_arith);
            assert(self.events@.len() - b == n * t);
            if n > 0 {
                assert(n * t >= 1) by (nonlinear_arith)
                    requires
                        n >= 1,
                        t >= 1,
                ;
                lemma_kept_total(n, t);
                assert(self.chain@.len() == n);
            } else {
                assert(n * t == 0) by (nonlinear_arith)
                    requires
                        n == 0,
                ;
            }
            assert forall|i: int| 0 <= i < self.chain.len() implies (#[trigger] self.chain[i]).k_index
                < self.k_values.len() && self.chain[i].k == self.k_values@[self.chain[i].k_index as int] by {
                assert(kept_position(b as nat, t as nat, i) < self.events@.len()) by {
                    lemma_kept_below((self.events@.len() - b) as int, t, i);
                    lemma_fundamental_div_mod((self.events@.len() - b) as int, t);
                }
                assert(self.events@[kept_position(b as nat, t as nat, i)].0 < self.k_values.len());
            }
            assert forall|i: int| 0 <= i < self.burn_in_chain.len() implies (#[trigger] self.burn_in_chain[i]).k_index
                < self.k_values.len() && self.burn_in_chain[i].k == self.k_values@[self.burn_in_chain[i].k_index as int] by {
                assert(self.events@[i].0 < self.k_values.len());
            }
        }
        SamplerResult {
            chain: self.chain,
            burn_in_chain: self.burn_in_chain,
            n_accepted: self.n_accepted,
            total_iters: self.total_iters,
        }
    }
}

/// A kept iteration lies within the iterations run so far.
proof fn lemma_kept_below(d: int, t: int, q: int)
    requires
        d >= 0,
        t >= 1,
        0 <= q < kept_count(d, t),
    ensures
        q * t < d,
{
    let k = kept_count(d, t);
    lemma_fundamental_div_mod(d + t - 1, t);
    let r = (d + t - 1) % t;
    assert(d + t - 1 == t * k + r);
    assert(0 <= r < t) by {
        vstd::arithmetic::div_mod::lemma_mod_bound(d + t - 1, t);
    }
    assert(q * t < d) by (nonlinear_arith)
        requires
            d + t - 1 == t * k + r,
            0 <= r < t,
            0 <= q < k,
            t >= 1,
    ;
}

} // verus!
