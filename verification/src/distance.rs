use vstd::prelude::*;

verus! {

/// Sum of squared per-coordinate differences of `x` and `y` over the index
/// range `[i, x.len())`; the tail of the squared Euclidean distance.
pub open spec fn dist_from(x: Seq<i64>, y: Seq<i64>, i: int) -> int
    decreases x.len() - i,
{
    if i < 0 || i >= x.len() {
        0
    } else {
        (x[i] - y[i]) * (x[i] - y[i]) + dist_from(x, y, i + 1)
    }
}

/// Squared Euclidean distance of two equal-length integer vectors:
/// the sum over all coordinates of the squared difference.
pub open spec fn dist_sqr_spec(x: Seq<i64>, y: Seq<i64>) -> int {
    dist_from(x, y, 0)
}

pub proof fn lemma_dist_from_nonneg(x: Seq<i64>, y: Seq<i64>, i: int)
    ensures
        dist_from(x, y, i) >= 0,
    decreases x.len() - i,
{
    if 0 <= i < x.len() {
        lemma_dist_from_nonneg(x, y, i + 1);
        assert((x[i] - y[i]) * (x[i] - y[i]) >= 0) by (nonlinear_arith);
    }
}

proof fn lemma_dist_from_symmetric(x: Seq<i64>, y: Seq<i64>, i: int)
    requires
        x.len() == y.len(),
    ensures
        dist_from(x, y, i) == dist_from(y, x, i),
    decreases x.len() - i,
{
    if 0 <= i < x.len() {
        lemma_dist_from_symmetric(x, y, i + 1);
        assert((x[i] - y[i]) * (x[i] - y[i]) == (y[i] - x[i]) * (y[i] - x[i]))
            by (nonlinear_arith);
    }
}

/// Distance law, first half: the squared Euclidean distance of equal-length
/// vectors is symmetric in its two arguments.
pub proof fn lemma_distance_symmetric(x: Seq<i64>, y: Seq<i64>)
    requires
        x.len() == y.len(),
    ensures
        dist_sqr_spec(x, y) == dist_sqr_spec(y, x),
{
    lemma_dist_from_symmetric(x, y, 0);
}

proof fn lemma_dist_from_zero_iff(x: Seq<i64>, y: Seq<i64>, i: int)
    requires
        x.len() == y.len(),
        0 <= i <= x.len(),
    ensures
        dist_from(x, y, i) == 0 <==> (forall|j: int| i <= j < x.len() ==> x[j] == y[j]),
    decreases x.len() - i,
{
    if i < x.len() {
        lemma_dist_from_zero_iff(x, y, i + 1);
        lemma_dist_from_nonneg(x, y, i + 1);
        assert((x[i] - y[i]) * (x[i] - y[i]) == 0 <==> x[i] == y[i]) by (nonlinear_arith);
        assert((x[i] - y[i]) * (x[i] - y[i]) >= 0) by (nonlinear_arith);
    }
}

/// Distance law, second half: the squared Euclidean distance of equal-length
/// vectors is zero exactly when the vectors agree at every coordinate; in
/// particular the distance of a vector to itself is zero.
pub proof fn lemma_distance_zero_iff(x: Seq<i64>, y: Seq<i64>)
    requires
        x.len() == y.len(),
    ensures
        dist_sqr_spec(x, y) == 0 <==> x == y,
        dist_sqr_spec(x, x) == 0,
{
    lemma_dist_from_zero_iff(x, y, 0);
    if dist_sqr_spec(x, y) == 0 {
        assert(x =~= y);
    }
    lemma_dist_from_zero_iff(x, x, 0);
}

/// Computes the squared Euclidean distance of two equal-length vectors whose
/// distance fits the accumulator type.
pub fn distance_sqr(x: &[i64], y: &[i64]) -> (d: i64)
    requires
        x@.len() == y@.len(),
        dist_sqr_spec(x@, y@) <= i64::MAX,
    ensures
        d == dist_sqr_spec(x@, y@),
{
    let n = x.len();
    let mut sum: i64 = 0;
    let mut i: usize = 0;
    while i < n
        invariant
            0 <= i <= n,
            n == x@.len(),
            x@.len() == y@.len(),
            dist_sqr_spec(x@, y@) <= i64::MAX,
            sum >= 0,
            sum + dist_from(x@, y@, i as int) == dist_sqr_spec(x@, y@),
        decreases n - i,
    {
        proof {
            lemma_dist_from_nonneg(x@, y@, i + 1);
        }
        let ghost dg: int = x@[i as int] - y@[i as int];
        assert(dg * dg + dist_from(x@, y@, i + 1) == dist_from(x@, y@, i as int));
        assert(dg * dg <= i64::MAX);
        assert(-3037000499 <= dg <= 3037000499) by (nonlinear_arith)
            requires dg * dg <= 0x7fff_ffff_ffff_ffff
        ;
        let diff = x[i] - y[i];
        assert(0 <= diff * diff <= 0x7fff_ffff_ffff_ffff) by (nonlinear_arith)
            requires -3037000499 <= diff <= 3037000499
        ;
        let term = diff * diff;
        sum = sum + term;
        i = i + 1;
    }
    sum
}

/// Total variant of the distance: checks the dimensions and the accumulator
/// range instead of assuming them. Returns the squared Euclidean distance
/// exactly when the vectors have equal length and the distance fits an `i64`;
/// a length mismatch is rejected, never resolved by truncation.
pub fn try_distance_sqr(x: &[i64], y: &[i64]) -> (r: Option<i64>)
    ensures
        r is Some <==> (x@.len() == y@.len() && dist_sqr_spec(x@, y@) <= i64::MAX),
        r matches Some(d) ==> d == dist_sqr_spec(x@, y@),
{
    if x.len() != y.len() {
        return None;
    }
    let n = x.len();
    let mut sum: i64 = 0;
    let mut i: usize = 0;
    while i < n
        invariant
            0 <= i <= n,
            n == x@.len(),
            x@.len() == y@.len(),
            sum >= 0,
            sum + dist_from(x@, y@, i as int) == dist_sqr_spec(x@, y@),
        decreases n - i,
    {
        proof {
            lemma_dist_from_nonneg(x@, y@, i + 1);
        }
        let ghost dg: int = x@[i as int] - y@[i as int];
        assert(dg * dg + dist_from(x@, y@, i + 1) == dist_from(x@, y@, i as int));
        let d128: i128 = x[i] as i128 - y[i] as i128;
        if d128 > 3037000499 || d128 < -3037000499 {
            proof {
                assert(dg * dg > 0x7fff_ffff_ffff_ffff) by (nonlinear_arith)
                    requires dg > 3037000499 || dg < -3037000499
                ;
            }
            return None;
        }
        assert(0 <= d128 * d128 <= 0x7fff_ffff_ffff_ffff) by (nonlinear_arith)
            requires -3037000499 <= d128 <= 3037000499
        ;
        let sq: i128 = d128 * d128;
        let term: i64 = sq as i64;
        if sum > i64::MAX - term {
            return None;
        }
        sum = sum + term;
        i = i + 1;
    }
    Some(sum)
}

} // verus!
