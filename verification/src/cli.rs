//! The command line of the `pnn-cli` program: its arguments, the training and test CSV
//! contract, and the quantities the program derives from the data before sampling.
//!
//! Reading files and writing results is the program's; this module decides what the
//! arguments and the CSV text mean.
use vstd::prelude::*;
use crate::text::{
    comma_pieces, decimal, decimal_text, first_comma, lemma_comma_pieces_join, lemma_comma_pieces_single,
    parse_u64_text, parse_unsigned,
    parse_usize_text, split_commas, split_once_comma, str_eq, trim, trimmed,
};
use crate::double::{is_positive, is_positive_bits};
use crate::types::{InferenceMethod, DEFAULT_BETA_SIGMA_BITS, DEFAULT_BETA_STEP_BITS};

verus! {

/// The usage line of the program.
pub const USAGE: &'static str = "Usage: pnn-cli --train <path> --test <path> --out <path> [--dataset <name>] [--implementation <str>] [--k <int>] [--k-values <int,int,...>] [--k-range <start,end>] [--method hybrid|joint-mh] [--n-samples <int>] [--burn-in <int>] [--thinning <int>] [--seed <int>] [--beta-step <float>] [--beta-sigma <float>] [--diagnose <path>]";

fn text_of(s: &str) -> (r: String)
    ensures
        r@ == s@,
{
    String::from_str(s)
}

/// The usage line of the program.
pub fn usage() -> (r: String)
    ensures
        r@ == USAGE@,
{
    text_of(USAGE)
}

/// The message for a flag given without its value.
pub open spec fn missing_value_text(flag: Seq<char>) -> Seq<char> {
    "missing value for "@ + flag
}

/// The value that follows `flag`, or the error that it is missing.
pub fn string_value(flag: &str, next: Option<String>) -> (r: Result<String, String>)
    ensures
        match next {
            Some(v) => r == Ok::<String, String>(v),
            None => r matches Err(e) && e@ == missing_value_text(flag@),
        },
{
    match next {
        Some(v) => Ok(v),
        None => {
            let mut e = text_of("missing value for ");
            e.append(flag);
            Err(e)
        },
    }
}

/// The path that follows `flag` (as text, which the program turns into a path), or the
/// error that it is missing.
pub fn path_value(flag: &str, next: Option<String>) -> (r: Result<String, String>)
    ensures
        match next {
            Some(v) => r == Ok::<String, String>(v),
            None => r matches Err(e) && e@ == missing_value_text(flag@),
        },
{
    string_value(flag, next)
}

/// The options the program knows.
#[derive(Debug, Clone, Copy, PartialEq, Eq, Structural)]
pub enum FlagKind {
    Train,
    Test,
    Out,
    Dataset,
    Implementation,
    K,
    KValues,
    KRange,
    NSamples,
    BurnIn,
    Thinning,
    BetaStep,
    BetaSigma,
    Method,
    Seed,
    Diagnose,
    Help,
    Unknown,
}

/// Which option an argument names.
pub open spec fn flag_kind(a: Seq<char>) -> FlagKind {
    if a == "--train"@ {
        FlagKind::Train
    } else if a == "--test"@ {
        FlagKind::Test
    } else if a == "--out"@ {
        FlagKind::Out
    } else if a == "--dataset"@ {
        FlagKind::Dataset
    } else if a == "--implementation"@ {
        FlagKind::Implementation
    } else if a == "--k"@ {
        FlagKind::K
    } else if a == "--k-values"@ {
        FlagKind::KValues
    } else if a == "--k-range"@ {
        FlagKind::KRange
    } else if a == "--n-samples"@ {
        FlagKind::NSamples
    } else if a == "--burn-in"@ {
        FlagKind::BurnIn
    } else if a == "--thinning"@ {
        FlagKind::Thinning
    } else if a == "--beta-step"@ {
        FlagKind::BetaStep
    } else if a == "--beta-sigma"@ {
        FlagKind::BetaSigma
    } else if a == "--method"@ {
        FlagKind::Method
    } else if a == "--seed"@ {
        FlagKind::Seed
    } else if a == "--diagnose"@ {
        FlagKind::Diagnose
    } else if a == "--help"@ || a == "-h"@ {
        FlagKind::Help
    } else {
        FlagKind::Unknown
    }
}

fn classify_flag(a: &str) -> (k: FlagKind)
    ensures
        k == flag_kind(a@),
{
    if str_eq(a, "--train") {
        FlagKind::Train
    } else if str_eq(a, "--test") {
        FlagKind::Test
    } else if str_eq(a, "--out") {
        FlagKind::Out
    } else if str_eq(a, "--dataset") {
        FlagKind::Dataset
    } else if str_eq(a, "--implementation") {
        FlagKind::Implementation
    } else if str_eq(a, "--k") {
        FlagKind::K
    } else if str_eq(a, "--k-values") {
        FlagKind::KValues
    } else if str_eq(a, "--k-range") {
        FlagKind::KRange
    } else if str_eq(a, "--n-samples") {
        FlagKind::NSamples
    } else if str_eq(a, "--burn-in") {
        FlagKind::BurnIn
    } else if str_eq(a, "--thinning") {
        FlagKind::Thinning
    } else if str_eq(a, "--beta-step") {
        FlagKind::BetaStep
    } else if str_eq(a, "--beta-sigma") {
        FlagKind::BetaSigma
    } else if str_eq(a, "--method") {
        FlagKind::Method
    } else if str_eq(a, "--seed") {
        FlagKind::Seed
    } else if str_eq(a, "--diagnose") {
        FlagKind::Diagnose
    } else if str_eq(a, "--help") || str_eq(a, "-h") {
        FlagKind::Help
    } else {
        FlagKind::Unknown
    }
}

// ── Option values ───────────────────────────────────────────────────────────

/// `s` read as a `usize`.
pub open spec fn usize_of(s: Seq<char>) -> Option<nat> {
    parse_unsigned(s, usize::MAX as nat)
}

/// What is wrong with the value of a count option that must be at least 1.
pub open spec fn positive_count_error(name: Seq<char>, raw: Seq<char>) -> Option<Seq<char>> {
    match usize_of(raw) {
        None => Some("invalid value for "@ + name + ": "@ + raw + " (expected positive integer)"@),
        Some(v) => if v == 0 {
            Some("invalid value for "@ + name + ": must be >= 1"@)
        } else {
            None
        },
    }
}

/// What is wrong with the value of `--burn-in`.
pub open spec fn burn_in_error(raw: Seq<char>) -> Option<Seq<char>> {
    match usize_of(raw) {
        None => Some("invalid value for "@ + "--burn-in"@ + ": "@ + raw + " (expected non-negative integer)"@),
        Some(_) => None,
    }
}

/// What is wrong with the value of `--seed`.
pub open spec fn seed_error(raw: Seq<char>) -> Option<Seq<char>> {
    match parse_unsigned(raw, u64::MAX as nat) {
        None => Some("invalid value for "@ + "--seed"@ + ": "@ + raw + " (expected non-negative integer)"@),
        Some(_) => None,
    }
}

/// What is wrong with the value `raw` of a positive double option; `reading` is the bit
/// pattern of the double `raw` reads as, `None` when it does not read as one.
pub open spec fn float_error(name: Seq<char>, raw: Seq<char>, reading: Option<u64>) -> Option<Seq<char>> {
    match reading {
        None => Some("invalid value for "@ + name + ": "@ + raw + " (expected positive float)"@),
        Some(b) => if !is_positive_bits(b) {
            Some("invalid value for "@ + name + ": must be > 0"@)
        } else {
            None
        },
    }
}

/// The sampler method an option value names.
pub open spec fn method_of(raw: Seq<char>) -> Option<InferenceMethod> {
    if raw == "hybrid"@ {
        Some(InferenceMethod::Hybrid)
    } else if raw == "joint-mh"@ {
        Some(InferenceMethod::JointMh)
    } else {
        None
    }
}

/// What is wrong with the value of `--method`.
pub open spec fn method_error(raw: Seq<char>) -> Option<Seq<char>> {
    match method_of(raw) {
        Some(_) => None,
        None => Some("invalid value for --method: '"@ + raw + "' (expected 'hybrid' or 'joint-mh')"@),
    }
}

/// What is wrong with one comma-separated piece of `--k-values`.
pub open spec fn k_piece_error(piece: Seq<char>) -> Option<Seq<char>> {
    match usize_of(trimmed(piece)) {
        None => Some(
            "invalid value in --k-values: '"@ + piece + "' (expected comma-separated positive integers)"@,
        ),
        Some(v) => if v == 0 {
            Some("invalid value in --k-values: all values must be >= 1"@)
        } else {
            None
        },
    }
}

/// The first error among comma-separated pieces, in order.
pub open spec fn k_pieces_error(pieces: Seq<Seq<char>>) -> Option<Seq<char>>
    decreases pieces.len(),
{
    if pieces.len() == 0 {
        None
    } else {
        match k_pieces_error(pieces.drop_last()) {
            Some(e) => Some(e),
            None => k_piece_error(pieces.last()),
        }
    }
}

/// What is wrong with the value of `--k-values`.
pub open spec fn k_values_error(raw: Seq<char>) -> Option<Seq<char>> {
    k_pieces_error(comma_pieces(raw))
}

/// The candidate ks that a valid `--k-values` value lists, in the order given.
pub open spec fn k_values_of(raw: Seq<char>) -> Seq<usize> {
    comma_pieces(raw).map_values(|p: Seq<char>| usize_of(trimmed(p)).unwrap() as usize)
}

/// A `--k-values` value lists one k per comma-separated piece, in order: a piece without
/// a comma gives the single k it reads as (spaces around it ignored), and joining two
/// values with a comma joins their lists.
pub proof fn lemma_k_values_by_piece(a: Seq<char>, b: Seq<char>)
    ensures
        k_values_of(a + seq![','] + b) == k_values_of(a) + k_values_of(b),
        k_values_of(a).len() == comma_pieces(a).len(),
        forall|i: int|
            0 <= i < comma_pieces(a).len() ==> #[trigger] k_values_of(a)[i] == usize_of(
                trimmed(comma_pieces(a)[i]),
            ).unwrap() as usize,
        !a.contains(',') ==> k_values_of(a) == seq![usize_of(trimmed(a)).unwrap() as usize],
{
    lemma_comma_pieces_join(a, b);
    assert(k_values_of(a + seq![','] + b) =~= k_values_of(a) + k_values_of(b));
    if !a.contains(',') {
        lemma_comma_pieces_single(a);
        assert(k_values_of(a) =~= seq![usize_of(trimmed(a)).unwrap() as usize]);
    }
}

/// The start and end of a `--k-range` value, trimmed.
pub open spec fn k_range_parts(raw: Seq<char>) -> (Seq<char>, Seq<char>) {
    let f = first_comma(raw).unwrap();
    (trimmed(raw.subrange(0, f)), trimmed(raw.subrange(f + 1, raw.len() as int)))
}

/// What is wrong with the value of `--k-range`.
pub open spec fn k_range_error(raw: Seq<char>) -> Option<Seq<char>> {
    if first_comma(raw) is None {
        Some("invalid value for --k-range: expected start,end (e.g. 2,40)"@)
    } else {
        let (a, b) = k_range_parts(raw);
        if usize_of(a) is None {
            Some("invalid start in --k-range: '"@ + a + "' (expected positive integer)"@)
        } else if usize_of(b) is None {
            Some("invalid end in --k-range: '"@ + b + "' (expected positive integer)"@)
        } else if usize_of(a).unwrap() == 0 {
            Some("invalid value for --k-range: start must be >= 1"@)
        } else if usize_of(b).unwrap() < usize_of(a).unwrap() {
            Some(
                "invalid value for --k-range: end ("@ + decimal(usize_of(b).unwrap()) + ") must be >= start ("@
                    + decimal(usize_of(a).unwrap()) + ")"@,
            )
        } else {
            None
        }
    }
}

/// The candidate ks of a valid `--k-range` value: start to end, both included.
pub open spec fn k_range_of(raw: Seq<char>) -> Seq<usize> {
    let start = usize_of(k_range_parts(raw).0).unwrap();
    let end = usize_of(k_range_parts(raw).1).unwrap();
    Seq::new((end - start + 1) as nat, |i: int| (start + i) as usize)
}

fn invalid_count_text(name: &str, raw: &str, expected: &str) -> (r: String)
    ensures
        r@ == "invalid value for "@ + name@ + ": "@ + raw@ + expected@,
{
    let mut e = text_of("invalid value for ");
    e.append(name);
    e.append(": ");
    e.append(raw);
    e.append(expected);
    e
}

fn not_above_zero_text(name: &str) -> (r: String)
    ensures
        r@ == "invalid value for "@ + name@ + ": must be > 0"@,
{
    let mut e = text_of("invalid value for ");
    e.append(name);
    e.append(": must be > 0");
    e
}

/// The value of a count option that must be at least 1 (`--n-samples`, `--thinning`).
fn positive_count(name: &str, raw: &str) -> (r: Result<usize, String>)
    ensures
        match r {
            Ok(v) => positive_count_error(name@, raw@) is None && v == usize_of(raw@).unwrap(),
            Err(e) => positive_count_error(name@, raw@) == Some(e@),
        },
{
    match parse_usize_text(raw) {
        None => Err(invalid_count_text(name, raw, " (expected positive integer)")),
        Some(v) => {
            if v == 0 {
                let mut e = text_of("invalid value for ");
                e.append(name);
                e.append(": must be >= 1");
                Err(e)
            } else {
                Ok(v)
            }
        },
    }
}

fn k_piece(piece: &str) -> (r: Result<usize, String>)
    ensures
        match r {
            Ok(v) => k_piece_error(piece@) is None && v == usize_of(trimmed(piece@)).unwrap(),
            Err(e) => k_piece_error(piece@) == Some(e@),
        },
{
    let t = trim(piece);
    match parse_usize_text(t.as_str()) {
        None => {
            let mut e = text_of("invalid value in --k-values: '");
            e.append(piece);
            e.append("' (expected comma-separated positive integers)");
            Err(e)
        },
        Some(v) => {
            if v == 0 {
                Err(text_of("invalid value in --k-values: all values must be >= 1"))
            } else {
                Ok(v)
            }
        },
    }
}

/// The candidate ks of a `--k-values` value.
fn k_values_option(raw: &str) -> (r: Result<Vec<usize>, String>)
    ensures
        match r {
            Ok(v) => k_values_error(raw@) is None && v@ == k_values_of(raw@),
            Err(e) => k_values_error(raw@) == Some(e@),
        },
{
    let pieces = split_commas(raw);
    let ghost ps = comma_pieces(raw@);
    let mut vals: Vec<usize> = Vec::new();
    let mut i: usize = 0;
    while i < pieces.len()
        invariant
            pieces@.map_values(|p: String| p@) == ps,
            ps == comma_pieces(raw@),
            i <= pieces.len(),
            k_pieces_error(ps.subrange(0, i as int)) is None,
            vals@ == ps.subrange(0, i as int).map_values(
                |p: Seq<char>| usize_of(trimmed(p)).unwrap() as usize,
            ),
        decreases pieces.len() - i,
    {
        let ghost pre = ps.subrange(0, i as int);
        let ghost post = ps.subrange(0, i + 1);
        proof {
            assert(post.drop_last() =~= pre);
            assert(post.last() == pieces@[i as int]@);
        }
        match k_piece(pieces[i].as_str()) {
            Err(e) => {
                proof {
                    assert(k_pieces_error(pre) is None);
                    assert(k_piece_error(post.last()) == Some(e@));
                    assert(k_pieces_error(post) == Some(e@));
                    lemma_k_pieces_error_prefix(ps, i + 1);
                }
                return Err(e);
            },
            Ok(v) => {
                vals.push(v);
                proof {
                    assert(vals@ =~= post.map_values(|p: Seq<char>| usize_of(trimmed(p)).unwrap() as usize));
                }
            },
        }
        i += 1;
    }
    proof {
        assert(ps.subrange(0, pieces.len() as int) =~= ps);
    }
    if vals.len() == 0 {
        return Err(text_of("invalid value for --k-values: must supply at least one value"));
    }
    Ok(vals)
}

/// An error among the first `i` pieces is the error of all of them.
proof fn lemma_k_pieces_error_prefix(ps: Seq<Seq<char>>, i: int)
    requires
        0 <= i <= ps.len(),
        k_pieces_error(ps.subrange(0, i)) is Some,
    ensures
        k_pieces_error(ps) == k_pieces_error(ps.subrange(0, i)),
    decreases ps.len() - i,
{
    if i < ps.len() {
        assert(ps.drop_last().subrange(0, i) =~= ps.subrange(0, i));
        lemma_k_pieces_error_prefix(ps.drop_last(), i);
    } else {
        assert(ps.subrange(0, i) =~= ps);
    }
}

fn k_range_option(raw: &str) -> (r: Result<Vec<usize>, String>)
    ensures
        match r {
            Ok(v) => k_range_error(raw@) is None && v@ == k_range_of(raw@),
            Err(e) => k_range_error(raw@) == Some(e@),
        },
{
    match split_once_comma(raw) {
        None => Err(text_of("invalid value for --k-range: expected start,end (e.g. 2,40)")),
        Some((a0, b0)) => {
            let a = trim(a0.as_str());
            let b = trim(b0.as_str());
            let start = match parse_usize_text(a.as_str()) {
                Some(v) => v,
                None => {
                    let mut e = text_of("invalid start in --k-range: '");
                    e.append(a.as_str());
                    e.append("' (expected positive integer)");
                    return Err(e);
                },
            };
            let end = match parse_usize_text(b.as_str()) {
                Some(v) => v,
                None => {
                    let mut e = text_of("invalid end in --k-range: '");
                    e.append(b.as_str());
                    e.append("' (expected positive integer)");
                    return Err(e);
                },
            };
            if start == 0 {
                return Err(text_of("invalid value for --k-range: start must be >= 1"));
            }
            if end < start {
                let mut e = text_of("invalid value for --k-range: end (");
                e.append(decimal_text(end).as_str());
                e.append(") must be >= start (");
                e.append(decimal_text(start).as_str());
                e.append(")");
                return Err(e);
            }
            let mut vals: Vec<usize> = Vec::new();
            let mut v: usize = start;
            while v < end
                invariant
                    start <= v <= end,
                    vals.len() == v - start,
                    forall|i: int| 0 <= i < vals.len() ==> #[trigger] vals[i] == start + i,
                decreases end - v,
            {
                vals.push(v);
                v += 1;
            }
            vals.push(end);
            proof {
                assert(vals@ =~= k_range_of(raw@));
            }
            Ok(vals)
        },
    }
}

// ── The whole argument list ─────────────────────────────────────────────────

/// What is wrong with the value of an option that takes one.
pub open spec fn value_error(kind: FlagKind, raw: Seq<char>, reading: Option<u64>) -> Option<Seq<char>> {
    match kind {
        FlagKind::K => positive_count_error("--k"@, raw),
        FlagKind::KValues => k_values_error(raw),
        FlagKind::KRange => k_range_error(raw),
        FlagKind::NSamples => positive_count_error("--n-samples"@, raw),
        FlagKind::BurnIn => burn_in_error(raw),
        FlagKind::Thinning => positive_count_error("--thinning"@, raw),
        FlagKind::BetaStep => float_error("--beta-step"@, raw, reading),
        FlagKind::BetaSigma => float_error("--beta-sigma"@, raw, reading),
        FlagKind::Method => method_error(raw),
        FlagKind::Seed => seed_error(raw),
        _ => None,
    }
}

/// What is wrong with an option `flag` followed by `next` (`reading`: the double `next`
/// reads as): help and unknown options stop the program, every other option needs a
/// valid value.
pub open spec fn option_error(flag: Seq<char>, next: Option<Seq<char>>, reading: Option<u64>) -> Option<
    Seq<char>,
> {
    match flag_kind(flag) {
        FlagKind::Help => Some(USAGE@),
        FlagKind::Unknown => Some("unknown argument: "@ + flag + "\n"@ + USAGE@),
        _ => match next {
            None => Some(missing_value_text(flag)),
            Some(raw) => value_error(flag_kind(flag), raw, reading),
        },
    }
}

/// The argument after the `j`-th option, if there is one (options stand at even positions).
pub open spec fn pair_next(av: Seq<Seq<char>>, j: int) -> Option<Seq<char>> {
    if 2 * j + 1 < av.len() {
        Some(av[2 * j + 1])
    } else {
        None
    }
}

/// The double the argument after the `j`-th option reads as.
pub open spec fn pair_reading(readings: Seq<Option<u64>>, j: int) -> Option<u64> {
    if 2 * j + 1 < readings.len() {
        readings[2 * j + 1]
    } else {
        None
    }
}

/// The first error among the first `m` options and their values.
pub open spec fn pairs_error(av: Seq<Seq<char>>, readings: Seq<Option<u64>>, m: nat) -> Option<Seq<char>>
    decreases m,
{
    if m == 0 {
        None
    } else {
        match pairs_error(av, readings, (m - 1) as nat) {
            Some(e) => Some(e),
            None => option_error(av[2 * (m - 1)], pair_next(av, m - 1), pair_reading(readings, m - 1)),
        }
    }
}

/// The value of the last of the first `m` options of kind `kind`: a later option
/// overrides an earlier one.
pub open spec fn last_value(av: Seq<Seq<char>>, kind: FlagKind, m: nat) -> Option<Seq<char>>
    decreases m,
{
    if m == 0 {
        None
    } else if flag_kind(av[2 * (m - 1)]) == kind {
        pair_next(av, m - 1)
    } else {
        last_value(av, kind, (m - 1) as nat)
    }
}

/// The double the value of the last of the first `m` options of kind `kind` reads as.
pub open spec fn last_reading(av: Seq<Seq<char>>, readings: Seq<Option<u64>>, kind: FlagKind, m: nat) -> Option<u64>
    decreases m,
{
    if m == 0 {
        None
    } else if flag_kind(av[2 * (m - 1)]) == kind {
        pair_reading(readings, m - 1)
    } else {
        last_reading(av, readings, kind, (m - 1) as nat)
    }
}

/// An option's double, or `default` when it is not given.
pub open spec fn bits_or(v: Option<u64>, default: u64) -> u64 {
    match v {
        Some(b) => b,
        None => default,
    }
}

/// How many options an argument list of length `n` holds.
pub open spec fn pair_count(n: nat) -> nat {
    (n + 1) / 2
}

/// The arguments as character sequences.
pub open spec fn arg_views(args: Seq<String>) -> Seq<Seq<char>> {
    args.map_values(|a: String| a@)
}

/// Why the program rejects an argument list, if it does: the first bad option, else the
/// first missing required path.
pub open spec fn args_error(av: Seq<Seq<char>>, readings: Seq<Option<u64>>) -> Option<Seq<char>> {
    let m = pair_count(av.len());
    match pairs_error(av, readings, m) {
        Some(e) => Some(e),
        None => if last_value(av, FlagKind::Train, m) is None {
            Some("missing required --train\n"@ + USAGE@)
        } else if last_value(av, FlagKind::Test, m) is None {
            Some("missing required --test\n"@ + USAGE@)
        } else if last_value(av, FlagKind::Out, m) is None {
            Some("missing required --out\n"@ + USAGE@)
        } else {
            None
        },
    }
}

/// An option's text, or `default` when it is not given.
pub open spec fn text_or(v: Option<Seq<char>>, default: Seq<char>) -> Seq<char> {
    match v {
        Some(t) => t,
        None => default,
    }
}

/// An option's count, or `default` when it is not given.
pub open spec fn count_or(v: Option<Seq<char>>, default: usize) -> usize {
    match v {
        Some(t) => usize_of(t).unwrap() as usize,
        None => default,
    }
}

/// The candidate ks: from `--k-values`, else `--k-range`, else `--k`, else just 3.
pub open spec fn resolved_k_values(av: Seq<Seq<char>>, m: nat) -> Seq<usize> {
    match last_value(av, FlagKind::KValues, m) {
        Some(raw) => k_values_of(raw),
        None => match last_value(av, FlagKind::KRange, m) {
            Some(raw) => k_range_of(raw),
            None => match last_value(av, FlagKind::K, m) {
                Some(raw) => seq![usize_of(raw).unwrap() as usize],
                None => seq![3usize],
            },
        },
    }
}

/// The text of an optional string.
pub open spec fn opt_text(o: Option<String>) -> Option<Seq<char>> {
    match o {
        Some(s) => Some(s@),
        None => None,
    }
}

/// The program's settings.
#[derive(Debug)]
pub struct Config {
    pub train: String,
    pub test: String,
    pub output: String,
    pub dataset: String,
    pub implementation: String,
    /// Candidate k values for the Gibbs step. Populated from --k-values, --k-range, or --k.
    pub k_values: Vec<usize>,
    pub method: InferenceMethod,
    pub n_samples: usize,
    pub burn_in: usize,
    pub thinning: usize,
    /// Proposal step for beta: the bit pattern of a positive double (NaN is refused).
    pub beta_step: u64,
    /// Prior scale of beta: the bit pattern of a positive double (NaN is refused).
    pub beta_sigma: u64,
    pub seed: Option<u64>,
    pub diagnose: Option<String>,
}

/// The settings an accepted argument list gives (`readings`: the doubles its arguments
/// read as).
pub open spec fn config_of(av: Seq<Seq<char>>, readings: Seq<Option<u64>>, c: Config) -> bool {
    let m = pair_count(av.len());
    &&& c.train@ == last_value(av, FlagKind::Train, m).unwrap()
    &&& c.test@ == last_value(av, FlagKind::Test, m).unwrap()
    &&& c.output@ == last_value(av, FlagKind::Out, m).unwrap()
    &&& c.dataset@ == text_or(last_value(av, FlagKind::Dataset, m), "unknown"@)
    &&& c.implementation@ == text_or(last_value(av, FlagKind::Implementation, m), "rust"@)
    &&& c.k_values@ == resolved_k_values(av, m)
    &&& c.method == match last_value(av, FlagKind::Method, m) {
        Some(raw) => method_of(raw).unwrap(),
        None => InferenceMethod::Hybrid,
    }
    &&& c.n_samples == count_or(last_value(av, FlagKind::NSamples, m), 1000)
    &&& c.burn_in == count_or(last_value(av, FlagKind::BurnIn, m), 500)
    &&& c.thinning == count_or(last_value(av, FlagKind::Thinning, m), 1)
    &&& c.beta_step == bits_or(last_reading(av, readings, FlagKind::BetaStep, m), DEFAULT_BETA_STEP_BITS)
    &&& c.beta_sigma == bits_or(last_reading(av, readings, FlagKind::BetaSigma, m), DEFAULT_BETA_SIGMA_BITS)
    &&& c.seed == match last_value(av, FlagKind::Seed, m) {
        Some(raw) => Some(parse_unsigned(raw, u64::MAX as nat).unwrap() as u64),
        None => None,
    }
    &&& opt_text(c.diagnose) == last_value(av, FlagKind::Diagnose, m)
}

/// The value of one option, read according to the option.
pub enum OptionValue {
    Text(String),
    Count(usize),
    KList(Vec<usize>),
    Method(InferenceMethod),
    Seed(u64),
    Double(u64),
}

/// `v` is what a valid value `raw` (reading as the double `reading`) of an option of kind
/// `kind` stands for.
pub open spec fn option_value_of(kind: FlagKind, raw: Seq<char>, reading: Option<u64>, v: OptionValue) -> bool {
    match kind {
        FlagKind::K | FlagKind::NSamples | FlagKind::BurnIn | FlagKind::Thinning => v
            == OptionValue::Count(usize_of(raw).unwrap() as usize),
        FlagKind::KValues => v matches OptionValue::KList(l) && l@ == k_values_of(raw),
        FlagKind::KRange => v matches OptionValue::KList(l) && l@ == k_range_of(raw),
        FlagKind::Method => v == OptionValue::Method(method_of(raw).unwrap()),
        FlagKind::Seed => v == OptionValue::Seed(parse_unsigned(raw, u64::MAX as nat).unwrap() as u64),
        FlagKind::BetaStep | FlagKind::BetaSigma => v == OptionValue::Double(reading.unwrap()),
        _ => v matches OptionValue::Text(t) && t@ == raw,
    }
}

/// Reads the value `raw` of an option of kind `kind` (`reading`: the bit pattern of the
/// double `raw` reads as, if it reads as one).
pub fn option_value(kind: FlagKind, raw: String, reading: Option<u64>) -> (r: Result<OptionValue, String>)
    requires
        kind != FlagKind::Help,
        kind != FlagKind::Unknown,
    ensures
        match r {
            Ok(v) => value_error(kind, raw@, reading) is None && option_value_of(kind, raw@, reading, v),
            Err(e) => value_error(kind, raw@, reading) == Some(e@),
        },
{
    match kind {
        FlagKind::K => match positive_count("--k", raw.as_str()) {
            Ok(v) => Ok(OptionValue::Count(v)),
            Err(e) => Err(e),
        },
        FlagKind::KValues => match k_values_option(raw.as_str()) {
            Ok(v) => Ok(OptionValue::KList(v)),
            Err(e) => Err(e),
        },
        FlagKind::KRange => match k_range_option(raw.as_str()) {
            Ok(v) => Ok(OptionValue::KList(v)),
            Err(e) => Err(e),
        },
        FlagKind::NSamples => match positive_count("--n-samples", raw.as_str()) {
            Ok(v) => Ok(OptionValue::Count(v)),
            Err(e) => Err(e),
        },
        FlagKind::BurnIn => match parse_usize_text(raw.as_str()) {
            Some(v) => Ok(OptionValue::Count(v)),
            None => Err(invalid_count_text("--burn-in", raw.as_str(), " (expected non-negative integer)")),
        },
        FlagKind::Thinning => match positive_count("--thinning", raw.as_str()) {
            Ok(v) => Ok(OptionValue::Count(v)),
            Err(e) => Err(e),
        },
        FlagKind::BetaStep => match reading {
            None => Err(invalid_count_text("--beta-step", raw.as_str(), " (expected positive float)")),
            Some(b) => if !is_positive(b) {
                Err(not_above_zero_text("--beta-step"))
            } else {
                Ok(OptionValue::Double(b))
            },
        },
        FlagKind::BetaSigma => match reading {
            None => Err(invalid_count_text("--beta-sigma", raw.as_str(), " (expected positive float)")),
            Some(b) => if !is_positive(b) {
                Err(not_above_zero_text("--beta-sigma"))
            } else {
                Ok(OptionValue::Double(b))
            },
        },
        FlagKind::Method => {
            if str_eq(raw.as_str(), "hybrid") {
                Ok(OptionValue::Method(InferenceMethod::Hybrid))
            } else if str_eq(raw.as_str(), "joint-mh") {
                Ok(OptionValue::Method(InferenceMethod::JointMh))
            } else {
                let mut e = text_of("invalid value for --method: '");
                e.append(raw.as_str());
                e.append("' (expected 'hybrid' or 'joint-mh')");
                Err(e)
            }
        },
        FlagKind::Seed => match parse_u64_text(raw.as_str()) {
            Some(v) => Ok(OptionValue::Seed(v)),
            None => Err(invalid_count_text("--seed", raw.as_str(), " (expected non-negative integer)")),
        },
        _ => Ok(OptionValue::Text(raw)),
    }
}

/// Reads the program's arguments. `readings[i]` is the bit pattern of the double that
/// argument `i` reads as, `None` when it does not read as one (only the values of
/// `--beta-step` and `--beta-sigma` are read so).
pub fn parse_args(args: &Vec<String>, readings: &Vec<Option<u64>>) -> (r: Result<Config, String>)
    requires
        readings.len() == args.len(),
    ensures
        match r {
            Ok(c) => args_error(arg_views(args@), readings@) is None && config_of(arg_views(args@), readings@, c),
            Err(e) => args_error(arg_views(args@), readings@) == Some(e@),
        },
{
    let ghost av = arg_views(args@);
    let n = args.len();
    let mut train: Option<String> = None;
    let mut test: Option<String> = None;
    let mut output: Option<String> = None;
    let mut dataset = text_of("unknown");
    let mut implementation = text_of("rust");
    let mut k_single: Option<usize> = None;
    let mut k_values_explicit: Option<Vec<usize>> = None;
    let mut k_range_explicit: Option<Vec<usize>> = None;
    let mut method = InferenceMethod::Hybrid;
    let mut n_samples: usize = 1000;
    let mut burn_in: usize = 500;
    let mut thinning: usize = 1;
    let mut beta_step: u64 = DEFAULT_BETA_STEP_BITS;
    let mut beta_sigma: u64 = DEFAULT_BETA_SIGMA_BITS;
    let mut seed: Option<u64> = None;
    let mut diagnose: Option<String> = None;
    let mut idx: usize = 0;
    let ghost mut j: nat = 0;
    while idx < n
        invariant
            n == args.len() == readings.len(),
            av == arg_views(args@),
            av.len() == n,
            idx == 2 * j,
            idx <= n,
            pairs_error(av, readings@, j) is None,
            opt_text(train) == last_value(av, FlagKind::Train, j),
            opt_text(test) == last_value(av, FlagKind::Test, j),
            opt_text(output) == last_value(av, FlagKind::Out, j),
            dataset@ == text_or(last_value(av, FlagKind::Dataset, j), "unknown"@),
            implementation@ == text_or(last_value(av, FlagKind::Implementation, j), "rust"@),
            match last_value(av, FlagKind::K, j) {
                Some(raw) => k_single == Some(usize_of(raw).unwrap() as usize),
                None => k_single is None,
            },
            match last_value(av, FlagKind::KValues, j) {
                Some(raw) => k_values_explicit matches Some(v) && v@ == k_values_of(raw),
                None => k_values_explicit is None,
            },
            match last_value(av, FlagKind::KRange, j) {
                Some(raw) => k_range_explicit matches Some(v) && v@ == k_range_of(raw),
                None => k_range_explicit is None,
            },
            method == match last_value(av, FlagKind::Method, j) {
                Some(raw) => method_of(raw).unwrap(),
                None => InferenceMethod::Hybrid,
            },
            n_samples == count_or(last_value(av, FlagKind::NSamples, j), 1000),
            burn_in == count_or(last_value(av, FlagKind::BurnIn, j), 500),
            thinning == count_or(last_value(av, FlagKind::Thinning, j), 1),
            beta_step == bits_or(last_reading(av, readings@, FlagKind::BetaStep, j), DEFAULT_BETA_STEP_BITS),
            beta_sigma == bits_or(last_reading(av, readings@, FlagKind::BetaSigma, j), DEFAULT_BETA_SIGMA_BITS),
            seed == match last_value(av, FlagKind::Seed, j) {
                Some(raw) => Some(parse_unsigned(raw, u64::MAX as nat).unwrap() as u64),
                None => None,
            },
            opt_text(diagnose) == last_value(av, FlagKind::Diagnose, j),
        decreases n - idx,
    {
        let arg = args[idx].as_str();
        let kind = classify_flag(arg);
        let ghost flag = av[idx as int];
        proof {
            assert(flag == args@[idx as int]@);
            assert(pairs_error(av, readings@, j + 1) == option_error(
                av[2 * j as int],
                pair_next(av, j as int),
                pair_reading(readings@, j as int),
            ));
        }
        match kind {
            FlagKind::Help => {
                proof {
                    lemma_pairs_error_prefix(av, readings@, (j + 1) as nat, pair_count(n as nat));
                }
                return Err(usage());
            },
            FlagKind::Unknown => {
                let mut e = text_of("unknown argument: ");
                e.append(arg);
                e.append("\n");
                e.append(USAGE);
                proof {
                    lemma_pairs_error_prefix(av, readings@, (j + 1) as nat, pair_count(n as nat));
                }
                return Err(e);
            },
            _ => {},
        }
        let next: Option<String> = if idx + 1 < n {
            Some(args[idx + 1].clone())
        } else {
            None
        };
        proof {
            if idx + 1 < n {
                assert(av[idx + 1] == args@[idx + 1]@);
            }
        }
        let raw = match string_value(arg, next) {
            Ok(v) => v,
            Err(e) => {
                proof {
                    lemma_pairs_error_prefix(av, readings@, (j + 1) as nat, pair_count(n as nat));
                }
                return Err(e);
            },
        };
        proof {
            assert(pair_next(av, j as int) == Some(raw@));
            assert(idx + 1 < n);
        }
        let reading = readings[idx + 1];
        let parsed = match option_value(kind, raw, reading) {
            Ok(p) => p,
            Err(e) => {
                proof {
                    lemma_pairs_error_prefix(av, readings@, (j + 1) as nat, pair_count(n as nat));
                }
                return Err(e);
            },
        };
        match parsed {
            OptionValue::Text(t) => match kind {
                FlagKind::Train => train = Some(t),
                FlagKind::Test => test = Some(t),
                FlagKind::Out => output = Some(t),
                FlagKind::Dataset => dataset = t,
                FlagKind::Implementation => implementation = t,
                FlagKind::Diagnose => diagnose = Some(t),
                _ => {},
            },
            OptionValue::Count(v) => match kind {
                FlagKind::K => k_single = Some(v),
                FlagKind::NSamples => n_samples = v,
                FlagKind::BurnIn => burn_in = v,
                FlagKind::Thinning => thinning = v,
                _ => {},
            },
            OptionValue::KList(v) => match kind {
                FlagKind::KValues => k_values_explicit = Some(v),
                FlagKind::KRange => k_range_explicit = Some(v),
                _ => {},
            },
            OptionValue::Method(m) => method = m,
            OptionValue::Seed(v) => seed = Some(v),
            OptionValue::Double(b) => match kind {
                FlagKind::BetaStep => beta_step = b,
                FlagKind::BetaSigma => beta_sigma = b,
                _ => {},
            },
        }
        idx += 2;
        proof {
            j = j + 1;
        }
    }
    proof {
        assert(j == pair_count(n as nat));
    }
    let train = match train {
        Some(t) => t,
        None => {
            let mut e = text_of("missing required --train\n");
            e.append(USAGE);
            return Err(e);
        },
    };
    let test = match test {
        Some(t) => t,
        None => {
            let mut e = text_of("missing required --test\n");
            e.append(USAGE);
            return Err(e);
        },
    };
    let output = match output {
        Some(t) => t,
        None => {
            let mut e = text_of("missing required --out\n");
            e.append(USAGE);
            return Err(e);
        },
    };
    // Precedence: --k-values > --k-range > --k > default [3].
    let k_values = match k_values_explicit {
        Some(v) => v,
        None => match k_range_explicit {
            Some(v) => v,
            None => {
                let mut v: Vec<usize> = Vec::new();
                match k_single {
                    Some(k) => v.push(k),
                    None => v.push(3),
                }
                proof {
                    assert(v@ =~= resolved_k_values(av, j));
                }
                v
            },
        },
    };
    Ok(Config {
        train,
        test,
        output,
        dataset,
        implementation,
        k_values,
        method,
        n_samples,
        burn_in,
        thinning,
        beta_step,
        beta_sigma,
        seed,
        diagnose,
    })
}

/// An error among the first `i` options is the error of the first `m >= i` of them.
proof fn lemma_pairs_error_prefix(av: Seq<Seq<char>>, readings: Seq<Option<u64>>, i: nat, m: nat)
    requires
        i <= m,
        pairs_error(av, readings, i) is Some,
    ensures
        pairs_error(av, readings, m) == pairs_error(av, readings, i),
        args_error(av, readings) == pairs_error(av, readings, i) || m != pair_count(av.len()),
    decreases m - i,
{
    if i < m {
        lemma_pairs_error_prefix(av, readings, i, (m - 1) as nat);
    }
}

// ── CSV contract ──────────────────────────────────────────────────────────────

/// Why a CSV header is rejected: it needs a feature column and a last column `label`.
pub open spec fn header_error(path: Seq<char>, headers: Seq<Seq<char>>) -> Option<Seq<char>> {
    if headers.len() < 2 {
        Some(path + ": expected at least one feature column plus `label`"@)
    } else if headers.last() != "label"@ {
        Some(path + ": last column must be named `label`"@)
    } else {
        None
    }
}

/// Checks the header of a CSV file (`path` is how the file is named in messages).
pub fn validate_headers(path: &str, headers: &Vec<String>) -> (r: Result<(), String>)
    ensures
        match r {
            Ok(()) => header_error(path@, arg_views(headers@)) is None,
            Err(e) => header_error(path@, arg_views(headers@)) == Some(e@),
        },
{
    let ghost hv = arg_views(headers@);
    if headers.len() < 2 {
        let mut e = text_of(path);
        e.append(": expected at least one feature column plus `label`");
        return Err(e);
    }
    proof {
        assert(hv.last() == headers@[headers.len() - 1]@);
    }
    if str_eq(headers[headers.len() - 1].as_str(), "label") {
        Ok(())
    } else {
        let mut e = text_of(path);
        e.append(": last column must be named `label`");
        Err(e)
    }
}

/// The start of every message about row `row_number` of file `path`.
pub open spec fn row_prefix(path: Seq<char>, row_number: usize) -> Seq<char> {
    path + " row "@ + decimal(row_number as nat)
}

/// The first field of `row` before its last that does not read as a number.
pub open spec fn first_non_numeric(numeric: Seq<bool>, n: int) -> int {
    choose|c: int| 0 <= c < n && !numeric[c] && forall|q: int| 0 <= q < c ==> #[trigger] numeric[q]
}

/// Why a data row is rejected: it needs a feature and a label, its features must read as
/// numbers (`numeric[c]` tells whether field `c` does) and its label as a `usize`.
pub open spec fn row_error(path: Seq<char>, row: Seq<Seq<char>>, row_number: usize, numeric: Seq<bool>) -> Option<Seq<char>> {
    if row.len() < 2 {
        Some(row_prefix(path, row_number) + ": expected at least one feature and one label"@)
    } else if exists|c: int| 0 <= c < row.len() - 1 && !#[trigger] numeric[c] {
        Some(
            row_prefix(path, row_number) + ": non-numeric feature at column "@ + decimal(
                first_non_numeric(numeric, row.len() - 1) as nat,
            ),
        )
    } else if usize_of(row.last()) is None {
        Some(row_prefix(path, row_number) + ": label must be a non-negative integer"@)
    } else {
        None
    }
}

/// Checks one data row of a CSV file and reads its label (the last field); the features
/// are the fields before it. `numeric[c]` tells whether field `c` reads as a number.
pub fn parse_row(path: &str, row: &Vec<String>, row_number: usize, numeric: &Vec<bool>) -> (r: Result<usize, String>)
    requires
        numeric.len() == row.len(),
    ensures
        match r {
            Ok(label) => row_error(path@, arg_views(row@), row_number, numeric@) is None && label
                == usize_of(row@.last()@).unwrap(),
            Err(e) => row_error(path@, arg_views(row@), row_number, numeric@) == Some(e@),
        },
{
    let ghost rv = arg_views(row@);
    assert(rv.len() == row.len());
    let mut prefix = text_of(path);
    prefix.append(" row ");
    prefix.append(decimal_text(row_number).as_str());
    if row.len() < 2 {
        prefix.append(": expected at least one feature and one label");
        return Err(prefix);
    }
    let label_col = row.len() - 1;
    let mut col: usize = 0;
    while col < label_col
        invariant
            row.len() >= 2,
            label_col == row.len() - 1,
            numeric.len() == row.len(),
            rv == arg_views(row@),
            rv.len() == row.len(),
            prefix@ == row_prefix(path@, row_number),
            col <= label_col,
            forall|q: int| 0 <= q < col ==> #[trigger] numeric@[q],
        decreases label_col - col,
    {
        if !numeric[col] {
            proof {
                assert(exists|c: int| 0 <= c < rv.len() - 1 && !#[trigger] numeric@[c]) by {
                    assert(!numeric@[col as int]);
                }
                let c = first_non_numeric(numeric@, label_col as int);
                assert(0 <= c < label_col && !numeric@[c] && forall|q: int| 0 <= q < c ==> #[trigger] numeric@[q]) by {
                    assert(0 <= col < label_col && !numeric@[col as int] && forall|q: int| 0 <= q < col ==> #[trigger] numeric@[q]);
                }
                assert(c == col as int) by {
                    if c < col {
                        assert(numeric@[c]);
                    }
                    if c > col {
                        assert(numeric@[col as int]);
                    }
                }
            }
            prefix.append(": non-numeric feature at column ");
            prefix.append(decimal_text(col).as_str());
            return Err(prefix);
        }
        col += 1;
    }
    proof {
        assert(rv.last() == row@[label_col as int]@);
        assert(!(exists|c: int| 0 <= c < rv.len() - 1 && !#[trigger] numeric@[c]));
    }
    match parse_usize_text(row[label_col].as_str()) {
        Some(label) => Ok(label),
        None => {
            prefix.append(": label must be a non-negative integer");
            Err(prefix)
        },
    }
}

} // verus!
