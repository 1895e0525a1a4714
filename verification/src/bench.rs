//! The two k-nearest-neighbour searches that the benchmark times against each other: a
//! search that ranks every row and keeps the first `k`, and one that selects the `k`
//! nearest in place. Both answer every query the same way; the benchmark only checks
//! that the inputs are not empty and that `k` is in range.
use vstd::prelude::*;
use crate::neighbors::{is_nearest_order, lemma_nearest_prefix, nearest, nearest_order};

verus! {

#[derive(Debug, Clone, Copy, PartialEq, Eq, Structural)]
pub enum KnnError {
    DimensionMismatch,
    InvalidK,
}

/// What the benchmark's searches answer: the `k` rows nearest the query, nearest first
/// (ties by the lower index), or why the inputs are refused.
pub open spec fn search_result(n_rows: nat, query_len: nat, k: usize, distances: Seq<u64>) -> Result<Seq<usize>, KnnError> {
    if n_rows == 0 || query_len == 0 {
        Err(KnnError::DimensionMismatch)
    } else if k == 0 || k > n_rows {
        Err(KnnError::InvalidK)
    } else {
        Ok(nearest(distances, None, k as nat))
    }
}

/// The view of a search's answer.
pub open spec fn answer_view(r: Result<Vec<usize>, KnnError>) -> Result<Seq<usize>, KnnError> {
    match r {
        Ok(v) => Ok(v@),
        Err(e) => Err(e),
    }
}

fn validate_inputs(data: &Vec<Vec<u64>>, query: &Vec<u64>, k: usize) -> (r: Result<(), KnnError>)
    ensures
        match search_result(data.len() as nat, query.len() as nat, k, Seq::empty()) {
            Ok(_) => r is Ok,
            Err(e) => r == Err::<(), KnnError>(e),
        },
{
    if data.len() == 0 || query.len() == 0 {
        return Err(KnnError::DimensionMismatch);
    }
    if k == 0 || k > data.len() {
        return Err(KnnError::InvalidK);
    }
    Ok(())
}

/// Ranks every row of `data` by its distance key to the query (`distances[j]` for row
/// `j`) and keeps the nearest `k`.
pub fn k_nearest_iter(data: &Vec<Vec<u64>>, query: &Vec<u64>, k: usize, distances: &Vec<u64>) -> (r: Result<Vec<usize>, KnnError>)
    requires
        distances.len() == data.len(),
    ensures
        answer_view(r) == search_result(data.len() as nat, query.len() as nat, k, distances@),
        r matches Ok(order) ==> order.len() == k && is_nearest_order(distances@, None, order@),
{
    match validate_inputs(data, query, k) {
        Err(e) => Err(e),
        Ok(()) => {
            let order = nearest_order(distances, None, data.len());
            let mut top: Vec<usize> = Vec::new();
            let mut i: usize = 0;
            while i < k
                invariant
                    k <= data.len() == distances.len(),
                    is_nearest_order(distances@, None, order@),
                    order.len() == data.len(),
                    i <= k,
                    top@ == order@.take(i as int),
                decreases k - i,
            {
                top.push(order[i]);
                assert(top@ =~= order@.take(i + 1));
                i += 1;
            }
            proof {
                lemma_nearest_prefix(distances@, None, order@, k as nat);
            }
            Ok(top)
        },
    }
}

/// Selects the `k` rows of `data` nearest the query in place, one position at a time
/// (`distances[j]` is row `j`'s distance key).
pub fn k_nearest_for(data: &Vec<Vec<u64>>, query: &Vec<u64>, k: usize, distances: &Vec<u64>) -> (r: Result<Vec<usize>, KnnError>)
    requires
        distances.len() == data.len(),
    ensures
        answer_view(r) == search_result(data.len() as nat, query.len() as nat, k, distances@),
        r matches Ok(order) ==> order.len() == k && is_nearest_order(distances@, None, order@),
{
    match validate_inputs(data, query, k) {
        Err(e) => Err(e),
        Ok(()) => Ok(nearest_order(distances, None, k)),
    }
}

} // verus!
