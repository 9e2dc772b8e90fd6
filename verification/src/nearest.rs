use vstd::prelude::*;

use crate::distance::{dist_sqr_spec, distance_sqr};
use crate::sample::{EmptyDatasetError, LabelPixel};

verus! {

/// Squared distance of training sample `i` to the query `q`.
pub open spec fn sample_dist(t: Seq<LabelPixel>, q: Seq<i64>, i: int) -> int {
    dist_sqr_spec(t[i].pixels@, q)
}

/// Index of the nearest sample to `q` among the first `n` training samples,
/// ties resolved towards the earliest sample in training order.
pub open spec fn best_index(t: Seq<LabelPixel>, q: Seq<i64>, n: int) -> int
    decreases n,
{
    if n <= 1 {
        0
    } else {
        let b = best_index(t, q, n - 1);
        if sample_dist(t, q, n - 1) < sample_dist(t, q, b) {
            n - 1
        } else {
            b
        }
    }
}

/// The label a nearest-neighbor classification of `q` against the non-empty
/// training set `t` returns: the label of the first sample in training order
/// whose distance to `q` is minimal over the whole set.
pub open spec fn classify_spec(t: Seq<LabelPixel>, q: Seq<i64>) -> i64 {
    t[best_index(t, q, t.len() as int)].label
}

/// The query has the dimension of every training sample, and each squared
/// distance to it fits the accumulator type: the machine-level bound under
/// which classification is defined.
pub open spec fn query_compatible(t: Seq<LabelPixel>, q: Seq<i64>) -> bool {
    forall|i: int|
        0 <= i < t.len() ==> (#[trigger] t[i]).pixels@.len() == q.len()
            && dist_sqr_spec(t[i].pixels@, q) <= i64::MAX
}

proof fn lemma_best_index_prefix(t: Seq<LabelPixel>, q: Seq<i64>, n: int)
    requires
        1 <= n <= t.len(),
    ensures
        0 <= best_index(t, q, n) < n,
        forall|i: int|
            0 <= i < n ==> sample_dist(t, q, best_index(t, q, n)) <= #[trigger] sample_dist(t, q, i),
        forall|i: int|
            0 <= i < best_index(t, q, n) ==> #[trigger] sample_dist(t, q, i) > sample_dist(
                t,
                q,
                best_index(t, q, n),
            ),
    decreases n,
{
    if n > 1 {
        lemma_best_index_prefix(t, q, n - 1);
    }
}

/// Nearest-neighbor law: on a non-empty training set the classifier's chosen
/// index lies in range, its distance to the query is minimal over the whole
/// set, and every earlier sample is strictly farther away — so the first
/// sample attaining the minimum wins, making classification deterministic.
pub proof fn lemma_classify_is_nearest(t: Seq<LabelPixel>, q: Seq<i64>)
    requires
        t.len() > 0,
    ensures
        0 <= best_index(t, q, t.len() as int) < t.len(),
        forall|i: int|
            0 <= i < t.len() ==> sample_dist(t, q, best_index(t, q, t.len() as int))
                <= #[trigger] sample_dist(t, q, i),
        forall|i: int|
            0 <= i < best_index(t, q, t.len() as int) ==> #[trigger] sample_dist(t, q, i)
                > sample_dist(t, q, best_index(t, q, t.len() as int)),
        classify_spec(t, q) == t[best_index(t, q, t.len() as int)].label,
{
    lemma_best_index_prefix(t, q, t.len() as int);
}

/// Classifies `pixels` by a full linear scan of the training set, returning
/// the label of the first sample at minimal squared Euclidean distance; an
/// empty training set is rejected rather than answered with a default label.
pub fn classify(training: &[LabelPixel], pixels: &[i64]) -> (r: Result<i64, EmptyDatasetError>)
    requires
        query_compatible(training@, pixels@),
    ensures
        r is Ok <==> training@.len() > 0,
        r matches Ok(label) ==> label == classify_spec(training@, pixels@),
{
    let n = training.len();
    if n == 0 {
        return Err(EmptyDatasetError);
    }
    let mut best_d: i64 = distance_sqr(training[0].pixels.as_slice(), pixels);
    let mut best_label: i64 = training[0].label;
    let mut i: usize = 1;
    while i < n
        invariant
            1 <= i <= n,
            n == training@.len(),
            query_compatible(training@, pixels@),
            best_d == sample_dist(training@, pixels@, best_index(training@, pixels@, i as int)),
            best_label == training@[best_index(training@, pixels@, i as int)].label,
        decreases n - i,
    {
        let d = distance_sqr(training[i].pixels.as_slice(), pixels);
        if d < best_d {
            best_d = d;
            best_label = training[i].label;
        }
        i = i + 1;
    }
    Ok(best_label)
}

/// Whether 1-NN classification of the sample's features against `t` yields
/// the sample's own label: the per-item correctness bit of a validation run.
pub open spec fn item_correct(t: Seq<LabelPixel>, s: LabelPixel) -> bool {
    classify_spec(t, s.pixels@) == s.label
}

/// The work one dispatcher worker does for one validation item: classify the
/// item's features against the shared training set and compare the result
/// with the item's true label.
pub fn check_item(training: &[LabelPixel], item: &LabelPixel) -> (r: Result<
    bool,
    EmptyDatasetError,
>)
    requires
        query_compatible(training@, item.pixels@),
    ensures
        r is Ok <==> training@.len() > 0,
        r matches Ok(c) ==> c == item_correct(training@, *item),
{
    match classify(training, item.pixels.as_slice()) {
        Ok(label) => Ok(label == item.label),
        Err(e) => Err(e),
    }
}

/// Checks the machine-level compatibility of one query with every training
/// sample: equal dimension and a squared distance that fits the accumulator.
pub fn query_compatible_exec(training: &[LabelPixel], query: &[i64]) -> (r: bool)
    ensures
        r <==> query_compatible(training@, query@),
{
    let n = training.len();
    let mut i: usize = 0;
    while i < n
        invariant
            0 <= i <= n,
            n == training@.len(),
            forall|j: int|
                0 <= j < i ==> (#[trigger] training@[j]).pixels@.len() == query@.len()
                    && dist_sqr_spec(training@[j].pixels@, query@) <= i64::MAX,
        decreases n - i,
    {
        if training[i].pixels.len() != query.len() {
            return false;
        }
        match crate::distance::try_distance_sqr(training[i].pixels.as_slice(), query) {
            Some(_) => {},
            None => {
                return false;
            },
        }
        i = i + 1;
    }
    true
}

} // verus!
