use vstd::arithmetic::div_mod::{
    lemma_fundamental_div_mod, lemma_mod_bound,
};
use vstd::prelude::*;

use crate::nearest::{check_item, item_correct, query_compatible};
use crate::sample::{EmptyDatasetError, LabelPixel};

verus! {

/// Every validation item is machine-compatible with the training set, so a
/// dispatcher may classify each of them.
pub open spec fn all_compatible(t: Seq<LabelPixel>, v: Seq<LabelPixel>) -> bool {
    forall|j: int| 0 <= j < v.len() ==> query_compatible(t, (#[trigger] v[j]).pixels@)
}

/// The one result sequence a correct dispatch can produce, up to order:
/// exactly one pair per validation index, carrying whether that item was
/// correctly classified against the training set.
pub open spec fn expected_results(t: Seq<LabelPixel>, v: Seq<LabelPixel>) -> Seq<(usize, bool)> {
    Seq::new(v.len(), |j: int| (j as usize, item_correct(t, v[j])))
}

/// Checks machine-level compatibility of every validation item with the
/// training set: the precondition a caller establishes before dispatching.
pub fn datasets_compatible(training: &[LabelPixel], validation: &[LabelPixel]) -> (r: bool)
    ensures
        r <==> all_compatible(training@, validation@),
{
    let m = validation.len();
    let mut j: usize = 0;
    while j < m
        invariant
            0 <= j <= m,
            m == validation@.len(),
            forall|k: int|
                0 <= k < j ==> query_compatible(training@, (#[trigger] validation@[k]).pixels@),
        decreases m - j,
    {
        if !crate::nearest::query_compatible_exec(training, validation[j].pixels.as_slice()) {
            return false;
        }
        j = j + 1;
    }
    true
}

/// Classifies every validation item against the shared, immutable training
/// set and collects one `(index, is_correct)` pair per item. The items are
/// split into `worker_count` contiguous chunks, one per worker of the pool
/// this models; the chunking never changes the pairs produced. An empty
/// training set aborts the whole run: no partial result is ever returned.
pub fn run(training: &[LabelPixel], validation: &[LabelPixel], worker_count: usize) -> (r: Result<
    Vec<(usize, bool)>,
    EmptyDatasetError,
>)
    requires
        worker_count >= 1,
        all_compatible(training@, validation@),
    ensures
        r is Ok <==> training@.len() > 0,
        r matches Ok(results) ==> results@ == expected_results(training@, validation@),
{
    if training.len() == 0 {
        return Err(EmptyDatasetError);
    }
    let n = validation.len();
    let q = n / worker_count;
    let rem = n % worker_count;
    proof {
        lemma_fundamental_div_mod(n as int, worker_count as int);
        lemma_mod_bound(n as int, worker_count as int);
    }
    let cs = if rem > 0 {
        proof {
            assert(worker_count >= 2) by {
                if worker_count == 1 {
                    assert(n % 1 == 0) by (nonlinear_arith);
                }
            }
            assert(q < n) by (nonlinear_arith)
                requires
                    n == worker_count * q + rem,
                    worker_count >= 2,
                    0 < rem < worker_count,
                    q >= 0,
            ;
        }
        q + 1
    } else {
        q
    };
    proof {
        assert(n <= worker_count * cs) by (nonlinear_arith)
            requires
                n == worker_count * q + rem,
                0 <= rem < worker_count,
                (rem > 0 ==> cs == q + 1) && (rem == 0 ==> cs == q),
        ;
    }
    let mut results: Vec<(usize, bool)> = Vec::new();
    let mut next: usize = 0;
    let mut w: usize = 0;
    while w < worker_count
        invariant
            w <= worker_count,
            next <= n,
            n == validation@.len(),
            training@.len() > 0,
            all_compatible(training@, validation@),
            results@.len() == next,
            forall|j: int|
                0 <= j < next ==> results@[j] == (j as usize, item_correct(
                    training@,
                    validation@[j],
                )),
            n - next <= (worker_count - w) * cs,
        decreases worker_count - w,
    {
        let remaining = n - next;
        let take = if cs < remaining {
            cs
        } else {
            remaining
        };
        let end = next + take;
        while next < end
            invariant
                next <= end <= n,
                n == validation@.len(),
                training@.len() > 0,
                all_compatible(training@, validation@),
                results@.len() == next,
                forall|j: int|
                    0 <= j < next ==> results@[j] == (j as usize, item_correct(
                        training@,
                        validation@[j],
                    )),
            decreases end - next,
        {
            let c = match check_item(training, &validation[next]) {
                Ok(b) => b,
                Err(e) => {
                    return Err(e);
                },
            };
            results.push((next, c));
            next = next + 1;
        }
        proof {
            let left = (worker_count - w) as int;
            if cs < remaining {
                assert(left * cs - cs == (left - 1) * cs) by (nonlinear_arith);
            } else {
                assert((left - 1) * cs >= 0) by (nonlinear_arith)
                    requires
                        left >= 1,
                        cs >= 0,
                ;
            }
        }
        w = w + 1;
    }
    proof {
        let left = (worker_count - w) as int;
        assert(left * cs == 0) by (nonlinear_arith)
            requires
                left == 0,
        ;
    }
    assert(results@ =~= expected_results(training@, validation@));
    Ok(results)
}

/// Dispatch law: the pairs a dispatcher hands back are a function of the two
/// datasets alone. Any two result sequences that meet the dispatcher's
/// contract — whatever worker counts produced them — are the same sequence
/// and contain the same pairs; parallelism may change arrival order, never
/// the result set.
pub proof fn lemma_dispatch_worker_count_irrelevant(
    t: Seq<LabelPixel>,
    v: Seq<LabelPixel>,
    r1: Seq<(usize, bool)>,
    r2: Seq<(usize, bool)>,
)
    requires
        r1 == expected_results(t, v),
        r2 == expected_results(t, v),
    ensures
        r1 == r2,
        forall|p: (usize, bool)| r1.contains(p) <==> r2.contains(p),
{
}

} // verus!
