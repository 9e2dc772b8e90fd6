use vstd::prelude::*;

verus! {

/// Number of correctly classified items among the results at indices
/// `[i, r.len())`.
pub open spec fn count_from(r: Seq<(usize, bool)>, i: int) -> int
    decreases r.len() - i,
{
    if i < 0 || i >= r.len() {
        0
    } else {
        (if r[i].1 {
            1int
        } else {
            0int
        }) + count_from(r, i + 1)
    }
}

/// Number of correctly classified items in a result sequence.
pub open spec fn count_correct(r: Seq<(usize, bool)>) -> int {
    count_from(r, 0)
}

/// The aggregate of one validation run: how many items were correctly
/// classified out of how many. The accuracy percentage is the real number
/// `100 * correct / total`, which the caller formats for display.
#[derive(Clone, Copy, Debug, PartialEq, Eq, Structural)]
pub struct Accuracy {
    pub correct: usize,
    pub total: usize,
}

proof fn lemma_count_from_bounds(r: Seq<(usize, bool)>, i: int)
    requires
        0 <= i <= r.len(),
    ensures
        0 <= count_from(r, i) <= r.len() - i,
    decreases r.len() - i,
{
    if i < r.len() {
        lemma_count_from_bounds(r, i + 1);
    }
}

proof fn lemma_count_from_extremes(r: Seq<(usize, bool)>, i: int)
    requires
        0 <= i <= r.len(),
    ensures
        count_from(r, i) == r.len() - i <==> (forall|j: int|
            i <= j < r.len() ==> (#[trigger] r[j]).1),
        count_from(r, i) == 0 <==> (forall|j: int| i <= j < r.len() ==> !(#[trigger] r[j]).1),
    decreases r.len() - i,
{
    if i < r.len() {
        lemma_count_from_extremes(r, i + 1);
        lemma_count_from_bounds(r, i + 1);
    }
}

/// Aggregation law: the correct-count lies between 0 and the number of items,
/// so the accuracy percentage `100 * count / len` lies in [0, 100]; the count
/// equals the length — a percentage of 100 — exactly when every item was
/// correctly classified, and it is 0 exactly when no item was.
pub proof fn lemma_accuracy_bounds(r: Seq<(usize, bool)>)
    ensures
        0 <= count_correct(r) <= r.len(),
        0 <= 100 * count_correct(r) <= 100 * r.len(),
        count_correct(r) == r.len() <==> (forall|i: int| 0 <= i < r.len() ==> (#[trigger] r[i]).1),
        count_correct(r) == 0 <==> (forall|i: int| 0 <= i < r.len() ==> !(#[trigger] r[i]).1),
{
    lemma_count_from_bounds(r, 0);
    lemma_count_from_extremes(r, 0);
}

/// Reduces the boolean correctness stream of one run to its aggregate:
/// counts the correctly classified items. The reduction is a commutative,
/// associative count, so the arrival order of the pairs does not matter.
pub fn summarize(results: &[(usize, bool)]) -> (a: Accuracy)
    ensures
        a.total == results@.len(),
        a.correct == count_correct(results@),
        a.correct <= a.total,
{
    let n = results.len();
    let mut c: usize = 0;
    let mut i: usize = 0;
    while i < n
        invariant
            0 <= i <= n,
            n == results@.len(),
            c <= i,
            c + count_from(results@, i as int) == count_correct(results@),
        decreases n - i,
    {
        if results[i].1 {
            c = c + 1;
        }
        i = i + 1;
    }
    Accuracy { correct: c, total: n }
}

} // verus!
