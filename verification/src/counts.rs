//! Class counts among nearest neighbours.
use vstd::prelude::*;

verus! {

/// How many of the first `k` entries of `order` are training points of class `c`.
pub open spec fn class_count(y: Seq<usize>, order: Seq<usize>, k: int, c: usize) -> nat
    decreases k,
{
    if k <= 0 {
        0
    } else {
        class_count(y, order, k - 1, c) + (if y[order[k - 1] as int] == c { 1nat } else { 0nat })
    }
}

/// The counts among the first `k` entries depend on those entries alone.
pub proof fn lemma_class_count_take(y: Seq<usize>, order: Seq<usize>, k: int, c: usize)
    requires
        0 <= k <= order.len(),
    ensures
        class_count(y, order, k, c) == class_count(y, order.take(k), k, c),
    decreases k,
{
    if k > 0 {
        lemma_class_count_take(y, order.take(k), k - 1, c);
        lemma_class_count_take(y, order, k - 1, c);
        assert(order.take(k).take(k - 1) =~= order.take(k - 1));
        assert(order.take(k)[k - 1] == order[k - 1]);
    }
}

/// The sum of a sequence of counts.
pub open spec fn sum(s: Seq<usize>) -> int
    decreases s.len(),
{
    if s.len() == 0 {
        0
    } else {
        sum(s.drop_last()) + s.last()
    }
}

/// Adding one to an entry adds one to the sum.
pub proof fn lemma_sum_increment(s: Seq<usize>, c: int)
    requires
        0 <= c < s.len(),
        s[c] < usize::MAX,
    ensures
        sum(s.update(c, (s[c] + 1) as usize)) == sum(s) + 1,
    decreases s.len(),
{
    let t = s.update(c, (s[c] + 1) as usize);
    if c == s.len() - 1 {
        assert(t.drop_last() =~= s.drop_last());
    } else {
        lemma_sum_increment(s.drop_last(), c);
        assert(t.drop_last() =~= s.drop_last().update(c, (s[c] + 1) as usize));
    }
}

/// A sequence of zeros sums to zero.
pub proof fn lemma_sum_zeros(s: Seq<usize>)
    requires
        forall|i: int| 0 <= i < s.len() ==> s[i] == 0,
    ensures
        sum(s) == 0,
    decreases s.len(),
{
    if s.len() > 0 {
        lemma_sum_zeros(s.drop_last());
    }
}

/// The neighbours `order[..k]` all have labels, and those labels are classes.
pub open spec fn labels_in_range(y: Seq<usize>, order: Seq<usize>, k: int, n_classes: usize) -> bool {
    forall|p: int|
        0 <= p < k ==> (#[trigger] order[p]) < y.len() && y[order[p] as int] < n_classes
}

/// A class count over a prefix of length `k` is at most `k`.
pub proof fn lemma_class_count_bound(y: Seq<usize>, order: Seq<usize>, k: int, c: usize)
    requires
        k >= 0,
    ensures
        class_count(y, order, k, c) <= k,
    decreases k,
{
    if k > 0 {
        lemma_class_count_bound(y, order, k - 1, c);
    }
}

} // verus!
