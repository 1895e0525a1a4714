//! The steps both front ends take between reading the data and sampling: checking the
//! inputs that go together, deriving the class count and the usable candidate ks, and
//! building the model; and scoring the predictions afterwards.
use vstd::prelude::*;
use crate::text::{decimal, decimal_text};
use crate::types::{is_bad_k, model_error, DataMatrix, Labels, ModelError, PnnModel};

verus! {

fn text_of(s: &str) -> (r: String)
    ensures
        r@ == s@,
{
    String::from_str(s)
}

/// The message for a run whose training data has no rows.
pub open spec fn no_training_rows_text() -> Seq<char> {
    "training CSV has no rows"@
}

/// Refuses training data without rows.
pub fn require_training_rows(n_rows: usize) -> (r: Result<(), String>)
    ensures
        n_rows > 0 ==> r is Ok,
        n_rows == 0 ==> (r matches Err(e) && e@ == no_training_rows_text()),
{
    if n_rows == 0 {
        Err(text_of("training CSV has no rows"))
    } else {
        Ok(())
    }
}

/// The message for test labels that do not match the test rows one for one.
pub open spec fn test_labels_text(n_labels: nat, n_rows: nat) -> Seq<char> {
    "y_test length ("@ + decimal(n_labels) + ") must match x_test row count ("@ + decimal(n_rows)
        + ")"@
}

/// Checks that test labels, when given, come one per test row.
pub fn check_test_labels(test_labels: &Option<Vec<usize>>, n_test_rows: usize) -> (r: Result<(), String>)
    ensures
        match test_labels {
            Some(l) => if l.len() == n_test_rows {
                r is Ok
            } else {
                r matches Err(e) && e@ == test_labels_text(l.len() as nat, n_test_rows as nat)
            },
            None => r is Ok,
        },
{
    match test_labels {
        Some(l) => {
            if l.len() != n_test_rows {
                let mut e = text_of("y_test length (");
                e.append(decimal_text(l.len()).as_str());
                e.append(") must match x_test row count (");
                e.append(decimal_text(n_test_rows).as_str());
                e.append(")");
                Err(e)
            } else {
                Ok(())
            }
        },
        None => Ok(()),
    }
}

/// The number of classes the labels imply: one more than the largest label, 1 when there
/// is no label.
pub open spec fn class_total(labels: Seq<usize>) -> int
    decreases labels.len(),
{
    if labels.len() == 0 {
        1
    } else {
        let rest = class_total(labels.drop_last());
        if labels.last() + 1 > rest {
            labels.last() + 1
        } else {
            rest
        }
    }
}

/// Every label lies below the class count the labels imply, and the count is at least 1.
pub proof fn lemma_labels_below_class_total(labels: Seq<usize>)
    ensures
        class_total(labels) >= 1,
        forall|i: int| 0 <= i < labels.len() ==> #[trigger] labels[i] < class_total(labels),
        labels.len() > 0 ==> labels.contains((class_total(labels) - 1) as usize),
    decreases labels.len(),
{
    if labels.len() > 0 {
        let rest = labels.drop_last();
        lemma_labels_below_class_total(rest);
        assert forall|i: int| 0 <= i < labels.len() implies #[trigger] labels[i] < class_total(labels) by {
            if i < labels.len() - 1 {
                assert(labels[i] == rest[i]);
            }
        }
        if labels.last() + 1 > class_total(rest) {
            assert(labels[labels.len() - 1] == labels.last());
        } else if rest.len() == 0 {
            assert(labels[0] == labels.last());
        } else {
            let c = (class_total(rest) - 1) as usize;
            let w = choose|w: int| 0 <= w < rest.len() && rest[w] == c;
            assert(labels[w] == c);
        }
    }
}

/// The number of classes the training labels imply: one more than the largest label,
/// 1 when there is no label.
pub fn infer_n_classes(labels: &Vec<usize>) -> (r: usize)
    requires
        forall|i: int| 0 <= i < labels.len() ==> #[trigger] labels[i] < usize::MAX,
    ensures
        r == class_total(labels@),
{
    let mut total: usize = 1;
    let mut i: usize = 0;
    while i < labels.len()
        invariant
            i <= labels.len(),
            forall|q: int| 0 <= q < labels.len() ==> #[trigger] labels[q] < usize::MAX,
            total == class_total(labels@.take(i as int)),
        decreases labels.len() - i,
    {
        assert(labels@.take(i + 1).drop_last() =~= labels@.take(i as int));
        if labels[i] + 1 > total {
            total = labels[i] + 1;
        }
        i += 1;
    }
    assert(labels@.take(labels.len() as int) =~= labels@);
    total
}

/// The largest candidate k a model over `n_train` points can use, floored at 1.
pub open spec fn k_ceiling(n_train: nat) -> int {
    if n_train >= 2 {
        n_train - 1
    } else {
        1
    }
}

/// `k` clamped into `1..=k_ceiling(n_train)`.
pub open spec fn clamp_k(k: usize, n_train: nat) -> usize {
    if k > k_ceiling(n_train) {
        k_ceiling(n_train) as usize
    } else if k < 1 {
        1
    } else {
        k
    }
}

/// Every candidate k clamped into the range a model over `n_train` points accepts.
pub open spec fn clamped_ks(k_values: Seq<usize>, n_train: nat) -> Seq<usize> {
    k_values.map_values(|k: usize| clamp_k(k, n_train))
}

/// Every candidate k clamped into `1..=max(n_train - 1, 1)`, the range a model over
/// `n_train` points accepts when it has at least two.
pub fn clamp_k_values(k_values: &Vec<usize>, n_train: usize) -> (r: Vec<usize>)
    ensures
        r@ == clamped_ks(k_values@, n_train as nat),
{
    let top = if n_train >= 2 { n_train - 1 } else { 1 };
    let mut r: Vec<usize> = Vec::new();
    let mut i: usize = 0;
    while i < k_values.len()
        invariant
            top == k_ceiling(n_train as nat),
            i <= k_values.len(),
            r@ == clamped_ks(k_values@.take(i as int), n_train as nat),
        decreases k_values.len() - i,
    {
        let k = k_values[i];
        let c = if k > top { top } else if k < 1 { 1 } else { k };
        r.push(c);
        assert(clamped_ks(k_values@.take(i + 1), n_train as nat) =~= clamped_ks(
            k_values@.take(i as int),
            n_train as nat,
        ).push(c));
        i += 1;
    }
    assert(k_values@.take(k_values.len() as int) =~= k_values@);
    r
}

/// Clamping keeps every usable candidate k as it is, lowers a k that is too large to
/// `n_train - 1` (the most neighbours a point has once it is left out), raises 0 to 1,
/// and gives 1 whenever there are fewer than two training points; the list keeps its
/// length and order.
pub proof fn lemma_clamp_keeps_usable_ks(k_values: Seq<usize>, n_train: nat)
    ensures
        clamped_ks(k_values, n_train).len() == k_values.len(),
        forall|i: int|
            0 <= i < k_values.len() ==> {
                let k = #[trigger] k_values[i];
                let c = clamped_ks(k_values, n_train)[i];
                &&& n_train >= 2 && 1 <= k <= n_train - 1 ==> c == k
                &&& n_train >= 2 && k > n_train - 1 ==> c == n_train - 1
                &&& k == 0 ==> c == 1
                &&& n_train < 2 ==> c == 1
            },
{
}

/// With at least two training points no clamped candidate k is unusable.
pub proof fn lemma_clamped_ks_usable(k_values: Seq<usize>, n_train: nat)
    requires
        n_train >= 2,
    ensures
        forall|i: int| 0 <= i < k_values.len() ==> !is_bad_k(#[trigger] clamped_ks(k_values, n_train)[i], n_train),
{
}

/// Builds the model the front ends sample from: the class count is the one the labels
/// imply and every candidate k is clamped into the usable range first.
pub fn build_model(x_train: DataMatrix, y_train: Labels, k_values: &Vec<usize>) -> (r: Result<PnnModel, ModelError>)
    requires
        forall|i: int| 0 <= i < y_train.len() ==> #[trigger] y_train[i] < usize::MAX,
    ensures
        ({
            let n_classes = class_total(y_train@) as usize;
            let ks = clamped_ks(k_values@, x_train.len() as nat);
            match r {
                Ok(m) => {
                    &&& model_error(x_train@, y_train@, n_classes, ks) is None
                    &&& m.wf()
                    &&& m.x_train@ == x_train@
                    &&& m.y_train@ == y_train@
                    &&& m.n_classes == n_classes
                    &&& forall|v: usize| m.k_values@.contains(v) <==> ks.contains(v)
                },
                Err(e) => model_error(x_train@, y_train@, n_classes, ks) == Some(e),
            }
        }),
        r matches Err(e) ==> !(e is InvalidClassCount) && !(e is LabelOutOfRange),
        x_train.len() >= 2 && k_values.len() > 0 ==> (r matches Err(e) ==> !(e is InvalidKValue) && !(
        e is EmptyKValues)),
{
    let n_classes = infer_n_classes(&y_train);
    let n_train = x_train.len();
    let ks = clamp_k_values(k_values, n_train);
    proof {
        lemma_labels_below_class_total(y_train@);
        if n_train >= 2 {
            lemma_clamped_ks_usable(k_values@, n_train as nat);
        }
    }
    PnnModel::new(x_train, y_train, n_classes, ks)
}

/// How many predictions differ from their label.
pub open spec fn mismatches(predicted: Seq<usize>, labels: Seq<usize>, n: int) -> nat
    decreases n,
{
    if n <= 0 {
        0
    } else {
        mismatches(predicted, labels, n - 1) + (if predicted[n - 1] != labels[n - 1] { 1nat } else { 0nat })
    }
}

/// Predictions that agree with every label have no mismatch.
pub proof fn lemma_mismatches_none(predicted: Seq<usize>, labels: Seq<usize>, n: int)
    requires
        0 <= n <= predicted.len(),
        n <= labels.len(),
        forall|i: int| 0 <= i < n ==> predicted[i] == labels[i],
    ensures
        mismatches(predicted, labels, n) == 0,
    decreases n,
{
    if n > 0 {
        lemma_mismatches_none(predicted, labels, n - 1);
    }
}

/// Turning one correct prediction into any wrong one adds exactly one mismatch, whatever
/// the classes involved; so the count is the number of positions where the two differ.
pub proof fn lemma_mismatches_one_more(predicted: Seq<usize>, labels: Seq<usize>, n: int, j: int, x: usize)
    requires
        0 <= j < n <= predicted.len(),
        n <= labels.len(),
        predicted[j] == labels[j],
        x != labels[j],
    ensures
        mismatches(predicted.update(j, x), labels, n) == mismatches(predicted, labels, n) + 1,
    decreases n,
{
    let p2 = predicted.update(j, x);
    if j < n - 1 {
        lemma_mismatches_one_more(predicted, labels, n - 1, j, x);
        assert(p2[n - 1] == predicted[n - 1]);
    } else {
        lemma_mismatches_same_prefix(predicted, p2, labels, n - 1);
    }
}

proof fn lemma_mismatches_same_prefix(p1: Seq<usize>, p2: Seq<usize>, labels: Seq<usize>, n: int)
    requires
        0 <= n <= p1.len(),
        n <= p2.len(),
        forall|i: int| 0 <= i < n ==> p1[i] == p2[i],
    ensures
        mismatches(p1, labels, n) == mismatches(p2, labels, n),
    decreases n,
{
    if n > 0 {
        lemma_mismatches_same_prefix(p1, p2, labels, n - 1);
    }
}

/// The number of misclassified test points: predictions that differ from their label.
/// It is 0 when there is nothing to compare or the two lists differ in length (the
/// misclassification cost is then 0).
pub fn count_misclassified(predicted: &Vec<usize>, labels: &Vec<usize>) -> (r: usize)
    ensures
        predicted.len() == 0 || labels.len() == 0 || predicted.len() != labels.len() ==> r == 0,
        predicted.len() == labels.len() ==> r == mismatches(predicted@, labels@, predicted.len() as int),
        r <= predicted.len(),
{
    if predicted.len() == 0 || labels.len() == 0 || predicted.len() != labels.len() {
        return 0;
    }
    let mut count: usize = 0;
    let mut i: usize = 0;
    while i < predicted.len()
        invariant
            predicted.len() == labels.len(),
            i <= predicted.len(),
            count == mismatches(predicted@, labels@, i as int),
            count <= i,
        decreases predicted.len() - i,
    {
        if predicted[i] != labels[i] {
            count += 1;
        }
        i += 1;
    }
    count
}

} // verus!
