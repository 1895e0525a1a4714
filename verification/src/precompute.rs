//! The count tensor that the sampler reads: for every training point and candidate k,
//! the class counts among its k nearest other training points.
use vstd::prelude::*;
use crate::counts::{
    class_count, labels_in_range, lemma_class_count_bound, lemma_class_count_take, lemma_sum_increment,
    lemma_sum_zeros, sum,
};
use crate::neighbors::{is_nearest_order, lemma_nearest_prefix, nearest, nearest_order};
use crate::types::{CountTensor, PnnModel};

verus! {

/// `distances[i][j]` is the distance key between training points `i` and `j`, for
/// every pair: a square matrix of side `n_train`.
pub open spec fn is_distance_matrix(distances: Seq<Vec<u64>>, n: nat) -> bool {
    &&& distances.len() == n
    &&& forall|i: int| 0 <= i < n ==> (#[trigger] distances[i]).len() == n
}

/// Build the static count tensor required by the MCMC sampler.
///
/// `result[i][ki][c]` = number of training point `i`'s neighbours of class `c` when
/// using its `model.k_values[ki]` nearest neighbours (itself excluded), the neighbours
/// ranked by `distances[i]` (ties by lower index). Each count vector sums to its k.
pub fn build_count_tensor(model: &PnnModel, distances: &Vec<Vec<u64>>) -> (tensor: CountTensor)
    requires
        model.wf(),
        is_distance_matrix(distances@, model.x_train.len() as nat),
    ensures
        tensor.len() == model.x_train.len(),
        forall|i: int|
            0 <= i < tensor.len() ==> (#[trigger] tensor[i]).len() == model.k_values.len(),
        forall|i: int, ki: int|
            0 <= i < tensor.len() && 0 <= ki < model.k_values.len() ==> {
                &&& (#[trigger] tensor[i][ki]).len() == model.n_classes
                &&& sum(tensor[i][ki]@) == model.k_values[ki]
                &&& nearest(distances[i]@, Some(i as usize), model.k_values[ki] as nat).len() == model.k_values[ki]
                &&& is_nearest_order(
                    distances[i]@,
                    Some(i as usize),
                    nearest(distances[i]@, Some(i as usize), model.k_values[ki] as nat),
                )
                &&& forall|c: int|
                    0 <= c < model.n_classes ==> #[trigger] tensor[i][ki][c] == class_count(
                        model.y_train@,
                        nearest(distances[i]@, Some(i as usize), model.k_values[ki] as nat),
                        model.k_values[ki] as int,
                        c as usize,
                    )
            },
{
    let n_train = model.x_train.len();
    let n_candidates = model.k_values.len();
    let n_classes = model.n_classes;
    let max_k = model.k_max();
    let mut tensor: CountTensor = Vec::new();
    let mut i: usize = 0;
    while i < n_train
        invariant
            model.wf(),
            n_train == model.x_train.len(),
            n_candidates == model.k_values.len(),
            n_classes == model.n_classes,
            max_k == model.k_values@.last(),
            is_distance_matrix(distances@, n_train as nat),
            i <= n_train,
            tensor.len() == i,
            forall|i1: int| 0 <= i1 < i ==> (#[trigger] tensor[i1]).len() == n_candidates,
            forall|i1: int, ki: int|
                0 <= i1 < i && 0 <= ki < n_candidates ==> {
                    &&& (#[trigger] tensor[i1][ki]).len() == n_classes
                    &&& sum(tensor[i1][ki]@) == model.k_values[ki]
                    &&& nearest(distances[i1]@, Some(i1 as usize), model.k_values[ki] as nat).len()
                        == model.k_values[ki]
                    &&& is_nearest_order(
                        distances[i1]@,
                        Some(i1 as usize),
                        nearest(distances[i1]@, Some(i1 as usize), model.k_values[ki] as nat),
                    )
                    &&& forall|c: int|
                        0 <= c < n_classes ==> #[trigger] tensor[i1][ki][c] == class_count(
                            model.y_train@,
                            nearest(distances[i1]@, Some(i1 as usize), model.k_values[ki] as nat),
                            model.k_values[ki] as int,
                            c as usize,
                        )
                },
        decreases n_train - i,
    {
        let order = nearest_order(&distances[i], Some(i), max_k);
        let ghost ord = order@;
        proof {
            assert forall|p: int| 0 <= p < max_k implies (#[trigger] ord[p]) < model.y_train@.len() && model.y_train@[ord[p] as int] < n_classes by {
                assert(ord[p] < distances[i as int].len());
            }
        }
        let mut running: Vec<usize> = Vec::new();
        let mut c: usize = 0;
        while c < n_classes
            invariant
                c <= n_classes,
                running.len() == c,
                forall|q: int| 0 <= q < c ==> #[trigger] running[q] == 0,
            decreases n_classes - c,
        {
            running.push(0);
            c += 1;
        }
        proof {
            lemma_sum_zeros(running@);
        }
        let mut row: Vec<Vec<usize>> = Vec::new();
        let mut ki: usize = 0;
        let mut rank: usize = 0;
        while rank < max_k
            invariant
                model.wf(),
                n_candidates == model.k_values.len(),
                n_classes == model.n_classes,
                max_k == model.k_values@.last(),
                order@ == ord,
                ord.len() == max_k,
                labels_in_range(model.y_train@, ord, max_k as int, n_classes),
                rank <= max_k,
                running.len() == n_classes,
                forall|q: int|
                    0 <= q < n_classes ==> #[trigger] running[q] == class_count(
                        model.y_train@,
                        ord,
                        rank as int,
                        q as usize,
                    ),
                sum(running@) == rank,
                ki <= n_candidates,
                row.len() == ki,
                ki == n_candidates || model.k_values[ki as int] > rank,
                forall|q: int| 0 <= q < ki ==> #[trigger] model.k_values[q] <= rank,
                forall|q: int|
                    0 <= q < ki ==> {
                        &&& (#[trigger] row[q]).len() == n_classes
                        &&& sum(row[q]@) == model.k_values[q]
                        &&& forall|c: int|
                            0 <= c < n_classes ==> #[trigger] row[q][c] == class_count(
                                model.y_train@,
                                ord,
                                model.k_values[q] as int,
                                c as usize,
                            )
                    },
            decreases max_k - rank,
        {
            let j = order[rank];
            let label = model.y_train[j];
            proof {
                assert(ord[rank as int] == j);
                assert(running[label as int] == class_count(model.y_train@, ord, rank as int, label));
                lemma_class_count_bound(model.y_train@, ord, rank as int, label);
                lemma_sum_increment(running@, label as int);
            }
            let v = running[label] + 1;
            running.set(label, v);
            let current_k = rank + 1;
            if ki < n_candidates && model.k_values[ki] == current_k {
                let snapshot = running.clone();
                proof {
                    assert(snapshot@ =~= running@);
                }
                row.push(snapshot);
                ki += 1;
                proof {
                    if ki < n_candidates {
                        assert(model.k_values[ki as int - 1] < model.k_values[ki as int]);
                    }
                }
            }
            rank += 1;
        }
        proof {
            if ki < n_candidates {
                assert(model.k_values[ki as int] <= model.k_values[n_candidates - 1]);
            }
            assert forall|q: int|
                #![trigger row[q]]
                0 <= q < n_candidates implies nearest(
                distances[i as int]@,
                Some(i),
                model.k_values[q] as nat,
            ).len() == model.k_values[q] && is_nearest_order(
                distances[i as int]@,
                Some(i),
                nearest(distances[i as int]@, Some(i), model.k_values[q] as nat),
            ) by {
                assert(model.k_values[q] <= max_k) by {
                    if q < n_candidates - 1 {
                        assert(model.k_values[q] < model.k_values[n_candidates - 1]);
                    }
                }
                lemma_nearest_prefix(distances[i as int]@, Some(i), ord, model.k_values[q] as nat);
            }
            assert forall|q: int, c: int| 0 <= q < n_candidates && 0 <= c < n_classes implies #[trigger] row[q][c]
                == class_count(
                model.y_train@,
                nearest(distances[i as int]@, Some(i), model.k_values[q] as nat),
                model.k_values[q] as int,
                c as usize,
            ) by {
                let k = model.k_values[q];
                assert(k <= max_k) by {
                    if q < n_candidates - 1 {
                        assert(model.k_values[q] < model.k_values[n_candidates - 1]);
                    }
                }
                lemma_nearest_prefix(distances[i as int]@, Some(i), ord, k as nat);
                lemma_class_count_take(model.y_train@, ord, k as int, c as usize);
                lemma_class_count_take(
                    model.y_train@,
                    nearest(distances[i as int]@, Some(i), k as nat),
                    k as int,
                    c as usize,
                );
            }
        }
        let ghost row_v = row@;
        let ghost before = tensor@;
        tensor.push(row);
        proof {
            assert forall|i1: int, ki: int| 0 <= i1 <= i && 0 <= ki < n_candidates implies nearest(
                distances[i1]@,
                Some(i1 as usize),
                model.k_values[ki] as nat,
            ).len() == model.k_values[ki] && is_nearest_order(
                distances[i1]@,
                Some(i1 as usize),
                nearest(distances[i1]@, Some(i1 as usize), model.k_values[ki] as nat),
            ) by {
                if i1 < i {
                    assert(tensor[i1] == before[i1]);
                    assert(tensor[i1][ki] == before[i1][ki]);
                } else {
                    assert(tensor[i1]@ == row_v);
                    assert(row_v[ki] == tensor[i1][ki]);
                }
            }
        }
        i += 1;
    }
    tensor
}

} // verus!
