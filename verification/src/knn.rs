//! Validated k-nearest-neighbour search.
use vstd::prelude::*;
use crate::double::{is_finite, is_finite_bits, non_finite_str, non_finite_text};
use crate::text::{decimal, decimal_text};
use crate::neighbors::{is_nearest_order, nearest, nearest_order};

verus! {

#[derive(Debug, Clone, PartialEq, Eq, Structural)]
pub enum KnnError {
    EmptyData,
    EmptyQuery,
    InvalidK { k: usize, n_samples: usize },
    EmptyFeatureVector { row_index: usize },
    DataDimensionMismatch { expected: usize, found: usize, row_index: usize },
    QueryDimensionMismatch { expected: usize, found: usize },
    /// `value` is the bit pattern of the offending double.
    NonFiniteQueryValue { feature_index: usize, value: u64 },
    /// `value` is the bit pattern of the offending double.
    NonFiniteDataValue { row_index: usize, feature_index: usize, value: u64 },
}

/// The values an error reports as not finite are indeed not finite (so they print as
/// `NaN`, `inf` or `-inf`); `validate_inputs` builds no other.
pub open spec fn reports_non_finite(e: KnnError) -> bool {
    match e {
        KnnError::NonFiniteQueryValue { value, .. } => !is_finite_bits(value),
        KnnError::NonFiniteDataValue { value, .. } => !is_finite_bits(value),
        _ => true,
    }
}

/// The message that describes a search error.
pub open spec fn knn_error_text(e: KnnError) -> Seq<char> {
    match e {
        KnnError::EmptyData => "data must not be empty"@,
        KnnError::EmptyQuery => "query must not be empty"@,
        KnnError::InvalidK { k, n_samples } => "k must be in 1..="@ + decimal(n_samples as nat) + ", got "@
            + decimal(k as nat),
        KnnError::EmptyFeatureVector { row_index } => "feature vector at row "@ + decimal(row_index as nat)
            + " must not be empty"@,
        KnnError::DataDimensionMismatch { expected, found, row_index } => "feature vector at row "@
            + decimal(row_index as nat) + " has "@ + decimal(found as nat) + " columns, expected "@
            + decimal(expected as nat),
        KnnError::QueryDimensionMismatch { expected, found } => "query has "@ + decimal(found as nat)
            + " columns, expected "@ + decimal(expected as nat),
        KnnError::NonFiniteQueryValue { feature_index, value } => "query feature at index "@ + decimal(
            feature_index as nat,
        ) + " must be finite, got "@ + non_finite_text(value),
        KnnError::NonFiniteDataValue { row_index, feature_index, value } => "data feature at row "@
            + decimal(row_index as nat) + ", index "@ + decimal(feature_index as nat)
            + " must be finite, got "@ + non_finite_text(value),
    }
}

fn text(s: &str) -> (r: String)
    ensures
        r@ == s@,
{
    String::from_str(s)
}

impl KnnError {
    /// The human-readable description of this error.
    pub fn message(&self) -> (r: String)
        requires
            reports_non_finite(*self),
        ensures
            r@ == knn_error_text(*self),
    {
        match self {
            KnnError::EmptyData => text("data must not be empty"),
            KnnError::EmptyQuery => text("query must not be empty"),
            KnnError::InvalidK { k, n_samples } => {
                let mut r = text("k must be in 1..=");
                r.append(decimal_text(*n_samples).as_str());
                r.append(", got ");
                r.append(decimal_text(*k).as_str());
                r
            },
            KnnError::EmptyFeatureVector { row_index } => {
                let mut r = text("feature vector at row ");
                r.append(decimal_text(*row_index).as_str());
                r.append(" must not be empty");
                r
            },
            KnnError::DataDimensionMismatch { expected, found, row_index } => {
                let mut r = text("feature vector at row ");
                r.append(decimal_text(*row_index).as_str());
                r.append(" has ");
                r.append(decimal_text(*found).as_str());
                r.append(" columns, expected ");
                r.append(decimal_text(*expected).as_str());
                r
            },
            KnnError::QueryDimensionMismatch { expected, found } => {
                let mut r = text("query has ");
                r.append(decimal_text(*found).as_str());
                r.append(" columns, expected ");
                r.append(decimal_text(*expected).as_str());
                r
            },
            KnnError::NonFiniteQueryValue { feature_index, value } => {
                let mut r = text("query feature at index ");
                r.append(decimal_text(*feature_index).as_str());
                r.append(" must be finite, got ");
                r.append(non_finite_str(*value));
                r
            },
            KnnError::NonFiniteDataValue { row_index, feature_index, value } => {
                let mut r = text("data feature at row ");
                r.append(decimal_text(*row_index).as_str());
                r.append(", index ");
                r.append(decimal_text(*feature_index).as_str());
                r.append(" must be finite, got ");
                r.append(non_finite_str(*value));
                r
            },
        }
    }
}

/// The first position of `v` whose double is not finite.
pub open spec fn first_non_finite(v: Seq<u64>) -> int {
    choose|f: int|
        0 <= f < v.len() && !is_finite_bits(v[f]) && forall|q: int|
            0 <= q < f ==> is_finite_bits(#[trigger] v[q])
}

/// A data row that fails validation: of another width than the first row, or holding a
/// non-finite value.
pub open spec fn is_bad_row(row: Seq<u64>, expected: nat) -> bool {
    row.len() != expected || exists|f: int| 0 <= f < row.len() && !is_finite_bits(#[trigger] row[f])
}

/// The first data row that fails validation.
pub open spec fn first_bad_row(data: Seq<Vec<u64>>, expected: nat) -> int {
    choose|r: int|
        0 <= r < data.len() && is_bad_row(data[r]@, expected) && forall|q: int|
            0 <= q < r ==> !is_bad_row(#[trigger] data[q]@, expected)
}

/// What `k_nearest` rejects its inputs for, checked in this order; `None` when it
/// accepts them.
pub open spec fn knn_error(data: Seq<Vec<u64>>, query: Seq<u64>, k: usize) -> Option<KnnError> {
    if data.len() == 0 {
        Some(KnnError::EmptyData)
    } else if query.len() == 0 {
        Some(KnnError::EmptyQuery)
    } else if k == 0 || k > data.len() {
        Some(KnnError::InvalidK { k, n_samples: data.len() as usize })
    } else if data[0].len() == 0 {
        Some(KnnError::EmptyFeatureVector { row_index: 0 })
    } else if query.len() != data[0].len() {
        Some(KnnError::QueryDimensionMismatch { expected: data[0].len() as usize, found: query.len() as usize })
    } else if exists|f: int| 0 <= f < query.len() && !is_finite_bits(#[trigger] query[f]) {
        let f = first_non_finite(query);
        Some(KnnError::NonFiniteQueryValue { feature_index: f as usize, value: query[f] })
    } else if exists|r: int| 0 <= r < data.len() && is_bad_row(#[trigger] data[r]@, data[0].len() as nat) {
        let r = first_bad_row(data, data[0].len() as nat);
        let row = data[r]@;
        if row.len() == 0 {
            Some(KnnError::EmptyFeatureVector { row_index: r as usize })
        } else if row.len() != data[0].len() {
            Some(
                KnnError::DataDimensionMismatch {
                    expected: data[0].len() as usize,
                    found: row.len() as usize,
                    row_index: r as usize,
                },
            )
        } else {
            let f = first_non_finite(row);
            Some(KnnError::NonFiniteDataValue { row_index: r as usize, feature_index: f as usize, value: row[f] })
        }
    } else {
        None
    }
}

/// The first position of `v` holding a non-finite double, if any.
fn find_non_finite(v: &Vec<u64>) -> (r: Option<usize>)
    ensures
        match r {
            Some(f) => f < v.len() && f == first_non_finite(v@) && !is_finite_bits(v@[f as int]),
            None => forall|q: int| 0 <= q < v.len() ==> is_finite_bits(#[trigger] v@[q]),
        },
{
    let mut f: usize = 0;
    while f < v.len()
        invariant
            f <= v.len(),
            forall|q: int| 0 <= q < f ==> is_finite_bits(#[trigger] v@[q]),
        decreases v.len() - f,
    {
        if !is_finite(v[f]) {
            proof {
                let g = first_non_finite(v@);
                assert(!is_finite_bits(v@[f as int]));
                assert(g == f as int) by {
                    if g < f {
                        assert(is_finite_bits(v@[g]));
                    }
                    if g > f {
                        assert(is_finite_bits(v@[f as int]));
                    }
                }
            }
            return Some(f);
        }
        f += 1;
    }
    None
}

/// Checks the data and query for `k_nearest`.
pub fn validate_inputs(data: &Vec<Vec<u64>>, query: &Vec<u64>, k: usize) -> (r: Result<(), KnnError>)
    ensures
        match r {
            Ok(()) => knn_error(data@, query@, k) is None,
            Err(e) => knn_error(data@, query@, k) == Some(e) && reports_non_finite(e),
        },
{
    if data.len() == 0 {
        return Err(KnnError::EmptyData);
    }
    if query.len() == 0 {
        return Err(KnnError::EmptyQuery);
    }
    let n_samples = data.len();
    if k == 0 || k > n_samples {
        return Err(KnnError::InvalidK { k, n_samples });
    }
    let expected = data[0].len();
    if expected == 0 {
        return Err(KnnError::EmptyFeatureVector { row_index: 0 });
    }
    if query.len() != expected {
        return Err(KnnError::QueryDimensionMismatch { expected, found: query.len() });
    }
    match find_non_finite(query) {
        Some(feature_index) => {
            return Err(KnnError::NonFiniteQueryValue { feature_index, value: query[feature_index] });
        },
        None => {},
    }
    let mut row_index: usize = 0;
    while row_index < data.len()
        invariant
            data.len() > 0,
            expected == data[0].len(),
            expected > 0,
            query.len() == expected,
            0 < k <= data.len(),
            forall|q: int| 0 <= q < query.len() ==> is_finite_bits(#[trigger] query@[q]),
            row_index <= data.len(),
            forall|q: int| 0 <= q < row_index ==> !is_bad_row(#[trigger] data@[q]@, expected as nat),
        decreases data.len() - row_index,
    {
        let row = &data[row_index];
        let found = row.len();
        let bad = if found == 0 || found != expected {
            true
        } else {
            match find_non_finite(row) {
                Some(_) => true,
                None => false,
            }
        };
        if bad {
            proof {
                let r = first_bad_row(data@, expected as nat);
                assert(is_bad_row(data@[row_index as int]@, expected as nat));
                assert(r == row_index as int) by {
                    if r < row_index {
                        assert(!is_bad_row(data@[r]@, expected as nat));
                    }
                    if r > row_index {
                        assert(!is_bad_row(data@[row_index as int]@, expected as nat));
                    }
                }
                assert(!(exists|f: int| 0 <= f < query@.len() && !is_finite_bits(#[trigger] query@[f])));
            }
            if found == 0 {
                return Err(KnnError::EmptyFeatureVector { row_index });
            }
            if found != expected {
                return Err(KnnError::DataDimensionMismatch { expected, found, row_index });
            }
            match find_non_finite(row) {
                Some(feature_index) => {
                    return Err(
                        KnnError::NonFiniteDataValue { row_index, feature_index, value: row[feature_index] },
                    );
                },
                None => {},
            }
        }
        row_index += 1;
    }
    proof {
        assert(!(exists|f: int| 0 <= f < query@.len() && !is_finite_bits(#[trigger] query@[f])));
        assert(!(exists|r: int| 0 <= r < data@.len() && is_bad_row(#[trigger] data@[r]@, expected as nat)));
    }
    Ok(())
}

/// The indices of the `k` rows of `data` nearest to `query`, nearest first, ties by
/// lower index; `distances[j]` is the distance key of row `j` to the query.
pub fn k_nearest(data: &Vec<Vec<u64>>, query: &Vec<u64>, k: usize, distances: &Vec<u64>) -> (r: Result<Vec<usize>, KnnError>)
    requires
        distances.len() == data.len(),
    ensures
        match r {
            Ok(order) => {
                &&& knn_error(data@, query@, k) is None
                &&& order@ == nearest(distances@, None, k as nat)
                &&& order.len() == k
                &&& is_nearest_order(distances@, None, order@)
            },
            Err(e) => knn_error(data@, query@, k) == Some(e) && reports_non_finite(e),
        },
{
    match validate_inputs(data, query, k) {
        Err(e) => Err(e),
        Ok(()) => Ok(nearest_order(distances, None, k)),
    }
}

} // verus!
