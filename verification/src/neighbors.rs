//! Neighbour ranking by distance key, ties broken by the lower index.
//!
//! A distance key is the bit pattern of a non-negative, non-NaN squared distance;
//! for such doubles the unsigned order of the bit patterns is the numeric order.
use vstd::prelude::*;

verus! {

/// Candidate `a` ranks strictly before candidate `b`: a smaller key, or the same key
/// and a lower index.
pub open spec fn ranks_before(keys: Seq<u64>, a: usize, b: usize) -> bool {
    keys[a as int] < keys[b as int] || (keys[a as int] == keys[b as int] && a < b)
}

/// `j` is an index into `keys` other than the excluded one.
pub open spec fn is_candidate(keys: Seq<u64>, skip: Option<usize>, j: usize) -> bool {
    j < keys.len() && skip != Some(j)
}

/// How many indices below `n` are candidates.
pub open spec fn candidates_below(n: int, skip: Option<usize>) -> int {
    match skip {
        Some(s) => if s < n { n - 1 } else { n },
        None => n,
    }
}

/// How many candidates there are.
pub open spec fn candidate_count(keys: Seq<u64>, skip: Option<usize>) -> int {
    candidates_below(keys.len() as int, skip)
}

/// `order` lists distinct candidates in ascending rank, and every candidate left out
/// ranks after all of them: `order` is the nearest `order.len()` candidates, nearest first.
pub open spec fn is_nearest_order(keys: Seq<u64>, skip: Option<usize>, order: Seq<usize>) -> bool {
    &&& forall|p: int| 0 <= p < order.len() ==> is_candidate(keys, skip, #[trigger] order[p])
    &&& forall|p: int, q: int|
        0 <= p < q < order.len() ==> ranks_before(keys, #[trigger] order[p], #[trigger] order[q])
    &&& forall|j: usize, p: int|
        #![trigger ranks_before(keys, order[p], j)]
        is_candidate(keys, skip, j) && !order.contains(j) && 0 <= p < order.len() ==> ranks_before(
            keys,
            order[p],
            j,
        )
}

/// The `k` nearest candidates, nearest first (unique: see `lemma_nearest_order_unique`).
pub open spec fn nearest(keys: Seq<u64>, skip: Option<usize>, k: nat) -> Seq<usize> {
    choose|order: Seq<usize>| order.len() == k && is_nearest_order(keys, skip, order)
}

proof fn lemma_nearest_prefix_equal(
    keys: Seq<u64>,
    skip: Option<usize>,
    s: Seq<usize>,
    t: Seq<usize>,
    p: int,
)
    requires
        s.len() == t.len(),
        is_nearest_order(keys, skip, s),
        is_nearest_order(keys, skip, t),
        0 <= p < s.len(),
    ensures
        forall|q: int| 0 <= q <= p ==> s[q] == t[q],
    decreases p,
{
    if p > 0 {
        lemma_nearest_prefix_equal(keys, skip, s, t, p - 1);
    }
    let a = s[p];
    let b = t[p];
    if a != b {
        // a ranks after b
        if t.contains(a) {
            let r = choose|r: int| 0 <= r < t.len() && t[r] == a;
            if r < p {
                assert(s[r] == t[r]);
                assert(ranks_before(keys, s[r], s[p]));
            }
            assert(ranks_before(keys, t[p], t[r]));
        } else {
            assert(is_candidate(keys, skip, a));
            assert(ranks_before(keys, t[p], a));
        }
        assert(ranks_before(keys, b, a));
        // b ranks after a
        if s.contains(b) {
            let r = choose|r: int| 0 <= r < s.len() && s[r] == b;
            if r < p {
                assert(s[r] == t[r]);
                assert(ranks_before(keys, t[r], t[p]));
            }
            assert(ranks_before(keys, s[p], s[r]));
        } else {
            assert(is_candidate(keys, skip, b));
            assert(ranks_before(keys, s[p], b));
        }
        assert(ranks_before(keys, a, b));
        assert(false);
    }
}

/// Two nearest orders of the same length are the same sequence.
pub proof fn lemma_nearest_order_unique(
    keys: Seq<u64>,
    skip: Option<usize>,
    s: Seq<usize>,
    t: Seq<usize>,
)
    requires
        s.len() == t.len(),
        is_nearest_order(keys, skip, s),
        is_nearest_order(keys, skip, t),
    ensures
        s == t,
{
    if s.len() > 0 {
        lemma_nearest_prefix_equal(keys, skip, s, t, s.len() - 1);
    }
    assert(s =~= t);
}

/// A sequence that is a nearest order is the one `nearest` names.
pub proof fn lemma_is_nearest(keys: Seq<u64>, skip: Option<usize>, order: Seq<usize>)
    requires
        is_nearest_order(keys, skip, order),
    ensures
        nearest(keys, skip, order.len()) == order,
{
    let c = nearest(keys, skip, order.len());
    assert(c.len() == order.len() && is_nearest_order(keys, skip, c));
    lemma_nearest_order_unique(keys, skip, c, order);
}

/// The first `k` of a nearest order are the `k` nearest: ranking once up to the largest
/// k needed serves every smaller k by a prefix.
pub proof fn lemma_nearest_prefix(keys: Seq<u64>, skip: Option<usize>, order: Seq<usize>, k: nat)
    requires
        is_nearest_order(keys, skip, order),
        k <= order.len(),
    ensures
        order.take(k as int) == nearest(keys, skip, k),
        is_nearest_order(keys, skip, nearest(keys, skip, k)),
        nearest(keys, skip, k).len() == k,
{
    let t = order.take(k as int);
    assert forall|j: usize, p: int|
        #![trigger ranks_before(keys, t[p], j)]
        is_candidate(keys, skip, j) && !t.contains(j) && 0 <= p < t.len() implies ranks_before(keys, t[p], j) by {
        assert(order[p] == t[p]);
        if order.contains(j) {
            let q = choose|q: int| 0 <= q < order.len() && order[q] == j;
            if q < k {
                assert(t[q] == j);
            }
            assert(ranks_before(keys, order[p], order[q]));
        }
    }
    assert forall|p: int, q: int| 0 <= p < q < t.len() implies ranks_before(keys, #[trigger] t[p], #[trigger] t[q]) by {
        assert(t[p] == order[p] && t[q] == order[q]);
    }
    assert forall|p: int| 0 <= p < t.len() implies is_candidate(keys, skip, #[trigger] t[p]) by {
        assert(t[p] == order[p]);
    }
    lemma_is_nearest(keys, skip, t);
}

/// A point that ranks before every other point sees itself first and then exactly the
/// neighbours it has when it is left out: a training point queried as a test point
/// meets the neighbours the count tensor gave it.
pub proof fn lemma_self_first(keys: Seq<u64>, i: usize, others: Seq<usize>)
    requires
        i < keys.len(),
        forall|j: usize| j < keys.len() && j != i ==> ranks_before(keys, i, j),
        is_nearest_order(keys, Some(i), others),
    ensures
        nearest(keys, None, others.len() + 1) == seq![i] + others,
        nearest(keys, Some(i), others.len()) == others,
{
    let t = seq![i] + others;
    assert forall|p: int| 0 <= p < t.len() implies is_candidate(keys, None, #[trigger] t[p]) by {
        if p > 0 {
            assert(t[p] == others[p - 1]);
        }
    }
    assert forall|p: int, q: int| 0 <= p < q < t.len() implies ranks_before(keys, #[trigger] t[p], #[trigger] t[q]) by {
        assert(t[q] == others[q - 1]);
        assert(is_candidate(keys, Some(i), others[q - 1]));
        if p > 0 {
            assert(t[p] == others[p - 1]);
        }
    }
    assert forall|j: usize, p: int|
        #![trigger ranks_before(keys, t[p], j)]
        is_candidate(keys, None, j) && !t.contains(j) && 0 <= p < t.len() implies ranks_before(keys, t[p], j) by {
        assert(t[0] == i);
        assert(j != i);
        if others.contains(j) {
            let q = choose|q: int| 0 <= q < others.len() && others[q] == j;
            assert(t[q + 1] == j);
        }
        if p > 0 {
            assert(t[p] == others[p - 1]);
            assert(is_candidate(keys, Some(i), j));
        }
    }
    lemma_is_nearest(keys, None, t);
    lemma_is_nearest(keys, Some(i), others);
}

/// The `k` nearest candidates of `keys` (all indices but `skip`), nearest first:
/// ascending key, ties broken by the lower index.
pub fn nearest_order(keys: &Vec<u64>, skip: Option<usize>, k: usize) -> (order: Vec<usize>)
    requires
        k <= candidate_count(keys@, skip),
    ensures
        order.len() == k,
        is_nearest_order(keys@, skip, order@),
        order@ == nearest(keys@, skip, k as nat),
{
    let n = keys.len();
    let mut cand: Vec<usize> = Vec::new();
    let mut j: usize = 0;
    while j < n
        invariant
            j <= n == keys.len(),
            cand.len() == candidates_below(j as int, skip),
            forall|i: int| 0 <= i < cand.len() ==> is_candidate(keys@, skip, #[trigger] cand[i]),
            forall|i: int| 0 <= i < cand.len() ==> #[trigger] cand[i] < j,
            forall|a: int, b: int| 0 <= a < b < cand.len() ==> #[trigger] cand[a] < #[trigger] cand[b],
            forall|x: usize| x < j && is_candidate(keys@, skip, x) ==> cand@.contains(x),
        decreases n - j,
    {
        let ghost before = cand@;
        let is_skipped = match skip {
            Some(s) => s == j,
            None => false,
        };
        if !is_skipped {
            cand.push(j);
            assert(cand[cand.len() - 1] == j);
        }
        proof {
            assert forall|x: usize| x < j + 1 && is_candidate(keys@, skip, x) implies cand@.contains(
                x,
            ) by {
                if x == j {
                    assert(cand[cand.len() - 1] == j);
                } else {
                    assert(before.contains(x));
                    let i = choose|i: int| 0 <= i < before.len() && before[i] == x;
                    assert(cand[i] == x);
                }
            }
        }
        j += 1;
    }
    // Partial selection sort: after step p, cand[..p] holds the p nearest, ascending,
    // and each of them ranks before everything in cand[p..].
    let len = cand.len();
    let mut p: usize = 0;
    while p < k
        invariant
            k <= len == cand.len() == candidate_count(keys@, skip),
            p <= k,
            forall|i: int| 0 <= i < cand.len() ==> is_candidate(keys@, skip, #[trigger] cand[i]),
            forall|a: int, b: int|
                0 <= a < cand.len() && 0 <= b < cand.len() && a != b ==> #[trigger] cand[a]
                    != #[trigger] cand[b],
            forall|x: usize| is_candidate(keys@, skip, x) ==> cand@.contains(x),
            forall|a: int, b: int|
                0 <= a < p && a < b < cand.len() ==> ranks_before(
                    keys@,
                    #[trigger] cand[a],
                    #[trigger] cand[b],
                ),
        decreases k - p,
    {
        let mut m: usize = p;
        let mut i: usize = p + 1;
        while i < len
            invariant
                len == cand.len(),
                p < len,
                p <= m < i <= len,
                forall|q: int| 0 <= q < cand.len() ==> is_candidate(keys@, skip, #[trigger] cand[q]),
                forall|a: int, b: int|
                    0 <= a < cand.len() && 0 <= b < cand.len() && a != b ==> #[trigger] cand[a]
                        != #[trigger] cand[b],
                forall|q: int| p <= q < i && q != m ==> ranks_before(keys@, cand[m as int], #[trigger] cand[q]),
            decreases len - i,
        {
            let ci = cand[i];
            let cm = cand[m];
            if keys[ci] < keys[cm] || (keys[ci] == keys[cm] && ci < cm) {
                m = i;
            }
            i += 1;
        }
        let ghost before = cand@;
        let a = cand[p];
        let b = cand[m];
        cand.set(p, b);
        cand.set(m, a);
        proof {
            assert forall|x: usize| is_candidate(keys@, skip, x) implies cand@.contains(x) by {
                assert(before.contains(x));
                let i = choose|i: int| 0 <= i < before.len() && before[i] == x;
                if i == p {
                    assert(cand[m as int] == x);
                } else if i == m {
                    assert(cand[p as int] == x);
                } else {
                    assert(cand[i] == x);
                }
            }
            assert forall|a1: int, b1: int|
                0 <= a1 < p + 1 && a1 < b1 < cand.len() implies ranks_before(
                    keys@,
                    #[trigger] cand[a1],
                    #[trigger] cand[b1],
                ) by {
                if a1 < p {
                    let ob = if b1 == m { p as int } else if b1 == p { m as int } else { b1 };
                    assert(cand[b1] == before[ob]);
                } else {
                    let ob = if b1 == m { p as int } else { b1 };
                    assert(cand[b1] == before[ob]);
                    assert(before[ob] != before[m as int]);
                }
            }
        }
        p += 1;
    }
    let ghost full = cand@;
    cand.truncate(k);
    proof {
        assert forall|x: usize, q: int|
            #![trigger ranks_before(keys@, cand@[q], x)]
            is_candidate(keys@, skip, x) && !cand@.contains(x) && 0 <= q < cand@.len()
                implies ranks_before(keys@, cand@[q], x) by {
            assert(full.contains(x));
            let i = choose|i: int| 0 <= i < full.len() && full[i] == x;
            if i < k {
                assert(cand@[i] == x);
            }
            assert(full[q] == cand@[q]);
        }
        lemma_is_nearest(keys@, skip, cand@);
    }
    cand
}

} // verus!
