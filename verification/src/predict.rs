//! Neighbour class counts, nearest-neighbour lists of test points, and the most
//! probable class.
use vstd::prelude::*;
use crate::counts::{class_count, labels_in_range, lemma_class_count_bound, lemma_sum_increment, lemma_sum_zeros, sum};
use crate::double::{double_gt, greater, is_nan_bits, order_key, NEG_INFINITY_BITS};
use crate::neighbors::{is_nearest_order, nearest, nearest_order};

verus! {

/// The class counts among the first `min(k, len)` entries of `sorted_neighbors`:
/// entry `c` counts the neighbours whose label is `c`; the counts sum to that length.
pub fn extract_class_counts(
    sorted_neighbors: &Vec<usize>,
    k: usize,
    y_train: &Vec<usize>,
    n_classes: usize,
) -> (counts: Vec<usize>)
    requires
        labels_in_range(
            y_train@,
            sorted_neighbors@,
            if k < sorted_neighbors.len() { k as int } else { sorted_neighbors.len() as int },
            n_classes,
        ),
    ensures
        counts.len() == n_classes,
        forall|c: int|
            0 <= c < n_classes ==> #[trigger] counts[c] == class_count(
                y_train@,
                sorted_neighbors@,
                if k < sorted_neighbors.len() { k as int } else { sorted_neighbors.len() as int },
                c as usize,
            ),
        sum(counts@) == if k < sorted_neighbors.len() { k as int } else { sorted_neighbors.len() as int },
{
    let limit = if k < sorted_neighbors.len() { k } else { sorted_neighbors.len() };
    let mut counts: Vec<usize> = Vec::new();
    let mut c: usize = 0;
    while c < n_classes
        invariant
            c <= n_classes,
            counts.len() == c,
            forall|i: int| 0 <= i < c ==> #[trigger] counts[i] == 0,
        decreases n_classes - c,
    {
        counts.push(0);
        c += 1;
    }
    proof {
        lemma_sum_zeros(counts@);
    }
    let mut p: usize = 0;
    while p < limit
        invariant
            limit <= sorted_neighbors.len(),
            p <= limit,
            counts.len() == n_classes,
            labels_in_range(y_train@, sorted_neighbors@, limit as int, n_classes),
            forall|c: int|
                0 <= c < n_classes ==> #[trigger] counts[c] == class_count(
                    y_train@,
                    sorted_neighbors@,
                    p as int,
                    c as usize,
                ),
            sum(counts@) == p,
        decreases limit - p,
    {
        let j = sorted_neighbors[p];
        let label = y_train[j];
        proof {
            assert(counts[label as int] == class_count(y_train@, sorted_neighbors@, p as int, label));
            assert(class_count(y_train@, sorted_neighbors@, p as int, label) <= p) by {
                lemma_class_count_bound(y_train@, sorted_neighbors@, p as int, label);
            }
            lemma_sum_increment(counts@, label as int);
        }
        let v = counts[label] + 1;
        counts.set(label, v);
        p += 1;
    }
    counts
}


/// For each test point `t`, the indices of its `min(k_max, n_train)` nearest training
/// points, nearest first, ranked by `distances[t]` (ties by lower index).
pub fn batch_sorted_neighbors(distances: &Vec<Vec<u64>>, k_max: usize) -> (r: Vec<Vec<usize>>)
    ensures
        r.len() == distances.len(),
        forall|t: int|
            0 <= t < r.len() ==> (#[trigger] r[t])@ == nearest(
                distances[t]@,
                None,
                (if k_max < distances[t].len() { k_max as nat } else { distances[t].len() as nat }),
            ),
        forall|t: int| 0 <= t < r.len() ==> is_nearest_order(distances[t]@, None, (#[trigger] r[t])@),
        forall|t: int|
            0 <= t < r.len() ==> (#[trigger] r[t]).len() == (if k_max < distances[t].len() {
                k_max as int
            } else {
                distances[t].len() as int
            }),
{
    let mut r: Vec<Vec<usize>> = Vec::new();
    let mut t: usize = 0;
    while t < distances.len()
        invariant
            t <= distances.len(),
            r.len() == t,
            forall|q: int|
                0 <= q < t ==> (#[trigger] r[q])@ == nearest(
                    distances[q]@,
                    None,
                    (if k_max < distances[q].len() { k_max as nat } else { distances[q].len() as nat }),
                ),
            forall|q: int| 0 <= q < t ==> is_nearest_order(distances[q]@, None, (#[trigger] r[q])@),
            forall|q: int|
                0 <= q < t ==> (#[trigger] r[q]).len() == (if k_max < distances[q].len() {
                    k_max as int
                } else {
                    distances[q].len() as int
                }),
        decreases distances.len() - t,
    {
        let row = &distances[t];
        let k = if k_max < row.len() { k_max } else { row.len() };
        let order = nearest_order(row, None, k);
        r.push(order);
        t += 1;
    }
    r
}

/// `values[r]` is a largest number of `values` above negative infinity, and no earlier
/// position holds an equal one (NaN compares with nothing).
pub open spec fn is_first_max(values: Seq<u64>, r: int) -> bool {
    &&& 0 <= r < values.len()
    &&& double_gt(values[r], NEG_INFINITY_BITS)
    &&& forall|j: int| 0 <= j < values.len() ==> !double_gt(#[trigger] values[j], values[r])
    &&& forall|j: int| 0 <= j < r ==> is_nan_bits(#[trigger] values[j]) || order_key(values[j]) < order_key(values[r])
}

/// The index of the largest double among `values` (bit patterns), the first one on ties,
/// as a scan that keeps a value only when it is greater than the best so far, starting
/// from negative infinity: NaN is never chosen, and 0 is returned when no value is above
/// negative infinity (an empty slice included).
pub fn argmax(values: &Vec<u64>) -> (r: usize)
    ensures
        (forall|j: int| 0 <= j < values.len() ==> !double_gt(#[trigger] values[j], NEG_INFINITY_BITS)) ==> r == 0,
        (exists|j: int| 0 <= j < values.len() && double_gt(#[trigger] values[j], NEG_INFINITY_BITS)) ==> is_first_max(
            values@,
            r as int,
        ),
{
    let mut best: usize = 0;
    let mut best_v: u64 = NEG_INFINITY_BITS;
    let mut i: usize = 0;
    proof {
        assert(!is_nan_bits(NEG_INFINITY_BITS)) by (bit_vector);
    }
    while i < values.len()
        invariant
            i <= values.len(),
            !is_nan_bits(NEG_INFINITY_BITS),
            (best_v == NEG_INFINITY_BITS && best == 0 && forall|j: int|
                0 <= j < i ==> !double_gt(#[trigger] values@[j], NEG_INFINITY_BITS)) || (best < i && best_v
                == values@[best as int] && is_first_max(values@.take(i as int), best as int)),
        decreases values.len() - i,
    {
        let v = values[i];
        let ghost old_take = values@.take(i as int);
        if greater(v, best_v) {
            proof {
                let t = values@.take(i + 1);
                assert forall|j: int| 0 <= j < t.len() implies !double_gt(#[trigger] t[j], v) by {
                    if j < i {
                        assert(t[j] == values@[j]);
                        if best_v != NEG_INFINITY_BITS || best != 0 {
                            assert(old_take[j] == values@[j]);
                        }
                    }
                }
                assert forall|j: int| 0 <= j < i implies is_nan_bits(#[trigger] t[j]) || order_key(t[j]) < order_key(t[i as int]) by {
                    assert(t[j] == values@[j]);
                    if !(best_v == NEG_INFINITY_BITS && best == 0 && forall|q: int|
                        0 <= q < i ==> !double_gt(#[trigger] values@[q], NEG_INFINITY_BITS)) {
                        assert(old_take[j] == values@[j]);
                        assert(old_take[best as int] == best_v);
                    }
                }
                assert(double_gt(t[i as int], NEG_INFINITY_BITS)) by {
                    if !(best_v == NEG_INFINITY_BITS && best == 0 && forall|q: int|
                        0 <= q < i ==> !double_gt(#[trigger] values@[q], NEG_INFINITY_BITS)) {
                        assert(old_take[best as int] == best_v);
                    }
                }
            }
            best = i;
            best_v = v;
        } else {
            proof {
                let t = values@.take(i + 1);
                if best_v == NEG_INFINITY_BITS && best == 0 && forall|q: int|
                    0 <= q < i ==> !double_gt(#[trigger] values@[q], NEG_INFINITY_BITS) {
                } else {
                    assert(old_take[best as int] == best_v);
                    assert forall|j: int| 0 <= j < t.len() implies !double_gt(#[trigger] t[j], t[best as int]) by {
                        if j < i {
                            assert(t[j] == old_take[j]);
                        }
                    }
                    assert forall|j: int| 0 <= j < best implies is_nan_bits(#[trigger] t[j]) || order_key(t[j]) < order_key(t[best as int]) by {
                        assert(t[j] == old_take[j]);
                    }
                }
            }
        }
        i += 1;
    }
    proof {
        assert(values@.take(values.len() as int) =~= values@);
    }
    best
}

} // verus!
