//! Histograms: fixed-boundary frequency distributions of observed values.
//!
//! A histogram owns an ascending sequence of bucket upper bounds, one count
//! per bucket plus a catch-all overflow bucket, a running sum of observed
//! values and a running observation count. An observation lands in the
//! first bucket whose upper bound is at least the value, or in the overflow
//! bucket when the value exceeds every bound.

use vstd::prelude::*;
use vstd::arithmetic::mul::{lemma_mul_inequality, lemma_mul_left_inequality};
use vstd::arithmetic::power::{pow, lemma_pow_positive, lemma_pow_increases};
use crate::labels::{LatencyLabels, LatencyLabelsV};

verus! {

/// Mathematical model of a [`Histogram`] value.
pub ghost struct HistogramV {
    pub bounds: Seq<int>,
    pub buckets: Seq<nat>,
    pub sum: int,
    pub count: nat,
}

/// The bounds of a bucket vector, as mathematical integers.
pub open spec fn int_bounds(s: Seq<i64>) -> Seq<int> {
    s.map_values(|b: i64| b as int)
}

/// A sequence of integers in strictly ascending order.
pub open spec fn strictly_increasing(s: Seq<int>) -> bool {
    forall|i: int, j: int| 0 <= i < j < s.len() ==> s[i] < s[j]
}

/// The magnitude bound on a single observed value.
pub open spec fn max_obs() -> int {
    i64::MAX as int + 1
}

/// The sum of a sequence of counts.
pub open spec fn seq_sum(s: Seq<nat>) -> nat
    decreases s.len(),
{
    if s.len() == 0 {
        0
    } else {
        s[0] + seq_sum(s.drop_first())
    }
}

/// Updating one count changes the sum by exactly the difference.
pub proof fn lemma_seq_sum_update(s: Seq<nat>, i: int, v: nat)
    requires
        0 <= i < s.len(),
    ensures
        seq_sum(s.update(i, v)) == seq_sum(s) - s[i] + v,
    decreases s.len(),
{
    if i == 0 {
        assert(s.update(0, v)[0] == v);
        assert(s.update(0, v).drop_first() =~= s.drop_first());
    } else {
        lemma_seq_sum_update(s.drop_first(), i - 1, v);
        assert(s.update(i, v)[0] == s[0]);
        assert(s.update(i, v).drop_first() =~= s.drop_first().update(i - 1, v));
    }
}

/// Each count is at most the sum of all counts.
pub proof fn lemma_seq_sum_bound(s: Seq<nat>, i: int)
    requires
        0 <= i < s.len(),
    ensures
        s[i] <= seq_sum(s),
    decreases s.len(),
{
    if i > 0 {
        lemma_seq_sum_bound(s.drop_first(), i - 1);
    }
}

/// A sequence of zero counts sums to zero.
pub proof fn lemma_seq_sum_zero(s: Seq<nat>)
    requires
        forall|i: int| 0 <= i < s.len() ==> s[i] == 0,
    ensures
        seq_sum(s) == 0,
    decreases s.len(),
{
    if s.len() > 0 {
        lemma_seq_sum_zero(s.drop_first());
    }
}

/// Appending one count extends the sum by that count.
pub proof fn lemma_seq_sum_push(s: Seq<nat>, v: nat)
    ensures
        seq_sum(s.push(v)) == seq_sum(s) + v,
    decreases s.len(),
{
    reveal_with_fuel(seq_sum, 3);
    if s.len() == 0 {
        assert(s.push(v)[0] == v);
        assert(s.push(v).drop_first() =~= Seq::<nat>::empty());
    } else {
        lemma_seq_sum_push(s.drop_first(), v);
        assert(s.push(v)[0] == s[0]);
        assert(s.push(v).drop_first() =~= s.drop_first().push(v));
    }
}

/// The sum of a prefix grows by exactly the next count.
pub proof fn lemma_seq_sum_take_step(s: Seq<nat>, i: int)
    requires
        0 <= i < s.len(),
    ensures
        seq_sum(s.take(i + 1)) == seq_sum(s.take(i)) + s[i],
{
    assert(s.take(i + 1) =~= s.take(i).push(s[i]));
    lemma_seq_sum_push(s.take(i), s[i]);
}

/// A prefix never sums to more than the whole.
pub proof fn lemma_seq_sum_take_le(s: Seq<nat>, i: int)
    requires
        0 <= i <= s.len(),
    ensures
        seq_sum(s.take(i)) <= seq_sum(s),
    decreases s.len() - i,
{
    if i == s.len() {
        assert(s.take(i) =~= s);
    } else {
        lemma_seq_sum_take_step(s, i);
        lemma_seq_sum_take_le(s, i + 1);
    }
}

/// The bucket an observed value falls into: the index of the first bound
/// at least the value, or the index one past the bounds (the overflow
/// bucket) when every bound is below the value.
pub open spec fn bucket_index(bounds: Seq<int>, v: int) -> int
    decreases bounds.len(),
{
    if bounds.len() == 0 {
        0
    } else if v <= bounds[0] {
        0
    } else {
        1 + bucket_index(bounds.drop_first(), v)
    }
}

/// The chosen bucket is in range, its bound (when it has one) admits the
/// value, and every earlier bound is below the value.
pub proof fn lemma_bucket_index_props(bounds: Seq<int>, v: int)
    ensures
        0 <= bucket_index(bounds, v) <= bounds.len(),
        bucket_index(bounds, v) < bounds.len() ==> v <= bounds[bucket_index(bounds, v)],
        forall|j: int| 0 <= j < bucket_index(bounds, v) ==> bounds[j] < v,
    decreases bounds.len(),
{
    if bounds.len() > 0 && v > bounds[0] {
        lemma_bucket_index_props(bounds.drop_first(), v);
        assert forall|j: int| 0 <= j < bucket_index(bounds, v) implies bounds[j] < v by {
            if j > 0 {
                assert(bounds.drop_first()[j - 1] < v);
            }
        }
    }
}

/// The first index whose bound admits the value is the chosen bucket.
pub proof fn lemma_bucket_index_at(bounds: Seq<int>, v: int, i: int)
    requires
        0 <= i < bounds.len(),
        v <= bounds[i],
        forall|j: int| 0 <= j < i ==> bounds[j] < v,
    ensures
        bucket_index(bounds, v) == i,
    decreases bounds.len(),
{
    if i > 0 {
        assert(forall|j: int| 0 <= j < i - 1 ==> bounds.drop_first()[j] < v);
        lemma_bucket_index_at(bounds.drop_first(), v, i - 1);
    }
}

/// When every bound is below the value, the overflow bucket is chosen.
pub proof fn lemma_bucket_index_over(bounds: Seq<int>, v: int)
    requires
        forall|j: int| 0 <= j < bounds.len() ==> bounds[j] < v,
    ensures
        bucket_index(bounds, v) == bounds.len(),
    decreases bounds.len(),
{
    if bounds.len() > 0 {
        assert(forall|j: int| 0 <= j < bounds.drop_first().len() ==> bounds.drop_first()[j] < v);
        lemma_bucket_index_over(bounds.drop_first(), v);
    }
}

/// Well-formedness of a histogram: one count per bound plus the overflow
/// bucket, ascending bounds, counts that sum to the observation count, and
/// a running sum bounded by what that many observations can reach.
pub open spec fn hist_wf(h: HistogramV) -> bool {
    &&& h.buckets.len() == h.bounds.len() + 1
    &&& strictly_increasing(h.bounds)
    &&& seq_sum(h.buckets) == h.count
    &&& h.count <= u64::MAX
    &&& -(h.count * max_obs()) <= h.sum <= h.count * max_obs()
}

/// The model of a fresh histogram over the given bounds.
pub open spec fn zero_hist(bounds: Seq<int>) -> HistogramV {
    HistogramV { bounds, buckets: Seq::new(bounds.len() + 1, |i: int| 0nat), sum: 0, count: 0 }
}

/// The model of one observation: the chosen bucket's count grows by one,
/// the value joins the running sum, the observation count grows by one.
pub open spec fn spec_observe(h: HistogramV, v: int) -> HistogramV {
    let k = bucket_index(h.bounds, v);
    HistogramV {
        bounds: h.bounds,
        buckets: h.buckets.update(k, (h.buckets[k] + 1) as nat),
        sum: h.sum + v,
        count: (h.count + 1) as nat,
    }
}

/// An observation on a well-formed histogram with headroom in its
/// observation count yields a well-formed histogram.
pub proof fn lemma_spec_observe_wf(h: HistogramV, v: int)
    requires
        hist_wf(h),
        h.count < u64::MAX,
        -max_obs() <= v < max_obs(),
    ensures
        hist_wf(spec_observe(h, v)),
{
    let k = bucket_index(h.bounds, v);
    lemma_bucket_index_props(h.bounds, v);
    lemma_seq_sum_bound(h.buckets, k);
    lemma_seq_sum_update(h.buckets, k, (h.buckets[k] + 1) as nat);
    assert((h.count + 1) * max_obs() == h.count * max_obs() + max_obs()) by (nonlinear_arith);
}

/// A verified copy of a bounds vector.
fn copy_bounds(v: &Vec<i64>) -> (r: Vec<i64>)
    ensures
        r@ == v@,
{
    let mut r: Vec<i64> = Vec::new();
    let n = v.len();
    for i in 0..n
        invariant
            n == v@.len(),
            r@ =~= v@.take(i as int),
    {
        r.push(v[i]);
    }
    proof {
        assert(r@ =~= v@);
    }
    r
}

/// A fixed-boundary frequency distribution with running sum and count.
pub struct Histogram {
    bounds: Vec<i64>,
    buckets: Vec<u64>,
    sum: i128,
    count: u64,
}

impl View for Histogram {
    type V = HistogramV;

    closed spec fn view(&self) -> HistogramV {
        HistogramV {
            bounds: int_bounds(self.bounds@),
            buckets: self.buckets@.map_values(|c: u64| c as nat),
            sum: self.sum as int,
            count: self.count as nat,
        }
    }
}

impl Histogram {
    /// A fresh histogram over the given ascending bounds: all counts,
    /// the sum and the observation count start at zero.
    pub fn new(bounds: Vec<i64>) -> (h: Histogram)
        requires
            strictly_increasing(int_bounds(bounds@)),
            bounds@.len() < usize::MAX,
        ensures
            h@ == zero_hist(int_bounds(bounds@)),
            hist_wf(h@),
    {
        let n = bounds.len();
        let mut buckets: Vec<u64> = Vec::new();
        let m = n + 1;
        for i in 0..m
            invariant
                buckets@.len() == i,
                forall|j: int| 0 <= j < i ==> buckets@[j] == 0u64,
        {
            buckets.push(0u64);
        }
        let h = Histogram { bounds, buckets, sum: 0, count: 0 };
        proof {
            assert(h@.buckets =~= zero_hist(int_bounds(h.bounds@)).buckets);
            lemma_seq_sum_zero(h@.buckets);
        }
        h
    }

    /// The bucket the value `v` falls into.
    fn find_bucket(&self, v: i64) -> (k: usize)
        ensures
            k as int == bucket_index(self@.bounds, v as int),
    {
        let n = self.bounds.len();
        for i in 0..n
            invariant
                n == self@.bounds.len(),
                forall|j: int| 0 <= j < i ==> self@.bounds[j] < v as int,
        {
            if v <= self.bounds[i] {
                proof {
                    lemma_bucket_index_at(self@.bounds, v as int, i as int);
                }
                return i;
            }
        }
        proof {
            lemma_bucket_index_over(self@.bounds, v as int);
        }
        n
    }

    /// Records one observation of the value `v`.
    pub fn observe(&mut self, v: i64)
        requires
            hist_wf(old(self)@),
            old(self)@.count < u64::MAX,
        ensures
            final(self)@ == spec_observe(old(self)@, v as int),
            hist_wf(final(self)@),
    {
        let k = self.find_bucket(v);
        proof {
            lemma_bucket_index_props(old(self)@.bounds, v as int);
            lemma_seq_sum_bound(old(self)@.buckets, k as int);
            lemma_spec_observe_wf(old(self)@, v as int);
            assert(old(self)@.count * max_obs() <= (u64::MAX - 1) * max_obs()) by {
                lemma_mul_inequality(old(self)@.count as int, u64::MAX - 1, max_obs());
            }
        }
        let b = &mut self.buckets[k];
        *b = *b + 1;
        self.sum = self.sum + (v as i128);
        self.count = self.count + 1;
        proof {
            assert(self@.buckets =~= spec_observe(old(self)@, v as int).buckets);
            assert(self@ == spec_observe(old(self)@, v as int));
        }
    }

    /// The number of observations recorded so far.
    pub fn count(&self) -> (c: u64)
        ensures
            c as nat == self@.count,
    {
        self.count
    }

    /// The running sum of all observed values.
    pub fn sum(&self) -> (s: i128)
        ensures
            s as int == self@.sum,
    {
        self.sum
    }

    /// The number of buckets, the overflow bucket included.
    pub fn num_buckets(&self) -> (n: usize)
        ensures
            n == self@.buckets.len(),
    {
        self.buckets.len()
    }

    /// The count recorded in bucket `i`.
    pub fn bucket_at(&self, i: usize) -> (c: u64)
        requires
            i < self@.buckets.len(),
        ensures
            c as nat == self@.buckets[i as int],
    {
        self.buckets[i]
    }

    /// Decides well-formedness: bucket count, bound order, count totals
    /// and the running-sum bound are all checked against the stored state.
    pub fn check_wf(&self) -> (b: bool)
        ensures
            b == hist_wf(self@),
    {
        let nb = self.bounds.len();
        let m = self.buckets.len();
        proof {
            assert(self@.bounds.len() == self.bounds@.len());
            assert(self@.buckets.len() == self.buckets@.len());
        }
        if nb == usize::MAX {
            return false;
        }
        if m != nb + 1 {
            return false;
        }
        if nb > 0 {
            let last = nb - 1;
            for i in 0..last
                invariant
                    nb == self@.bounds.len(),
                    last == nb - 1,
                    forall|t: int| 0 <= t < i ==> #[trigger] self@.bounds[t] < self@.bounds[t + 1],
            {
                if self.bounds[i] >= self.bounds[i + 1] {
                    proof {
                        assert(self@.bounds[i as int] == self.bounds@[i as int] as int);
                        assert(self@.bounds[i + 1] == self.bounds@[i + 1] as int);
                        assert(!strictly_increasing(self@.bounds));
                    }
                    return false;
                }
            }
        }
        proof {
            lemma_adjacent_increasing(self@.bounds);
        }
        let mut acc: u128 = 0;
        proof {
            assert(self@.buckets.take(0) =~= Seq::<nat>::empty());
        }
        for i in 0..m
            invariant
                m == self@.buckets.len(),
                acc as nat == seq_sum(self@.buckets.take(i as int)),
                acc as nat <= i * (u64::MAX as nat),
        {
            proof {
                lemma_seq_sum_take_step(self@.buckets, i as int);
                assert((i + 1) * (u64::MAX as nat) == i * (u64::MAX as nat) + (u64::MAX as nat))
                    by (nonlinear_arith);
                lemma_mul_inequality(i as int, usize::MAX as int, u64::MAX as int);
            }
            acc = acc + (self.buckets[i] as u128);
        }
        proof {
            assert(self@.buckets.take(m as int) =~= self@.buckets);
        }
        if acc != (self.count as u128) {
            return false;
        }
        proof {
            lemma_mul_inequality(self.count as int, u64::MAX as int, max_obs());
        }
        let limit: i128 = (self.count as i128) * 9223372036854775808i128;
        if self.sum < -limit || self.sum > limit {
            return false;
        }
        true
    }

    /// The number of bounds (the overflow bucket has none).
    pub fn num_bounds(&self) -> (n: usize)
        ensures
            n == self@.bounds.len(),
    {
        self.bounds.len()
    }

    /// The upper bound of bucket `i`.
    pub fn bound_at(&self, i: usize) -> (b: i64)
        requires
            i < self@.bounds.len(),
        ensures
            b as int == self@.bounds[i as int],
    {
        self.bounds[i]
    }
}

/// Exponentially growing bucket bounds: the bound of bucket `i` is
/// `base * factor^i`, strictly increasing and all positive.
pub fn exponential_buckets(base: i64, factor: i64, count: usize) -> (r: Vec<i64>)
    requires
        base >= 1,
        factor >= 2,
        count > 0 ==> base * pow(factor as int, (count - 1) as nat) <= i64::MAX,
    ensures
        r@.len() == count,
        forall|i: int| 0 <= i < count ==> r@[i] as int == base * pow(factor as int, i as nat),
        forall|i: int| 0 <= i < count ==> #[trigger] r@[i] >= 1,
        strictly_increasing(int_bounds(r@)),
{
    let mut r: Vec<i64> = Vec::new();
    if count == 0 {
        return r;
    }
    let ghost f = factor as int;
    let mut cur: i64 = base;
    proof {
        vstd::arithmetic::power::lemma_pow0(f);
    }
    for i in 0..count
        invariant
            base >= 1,
            factor >= 2,
            0 < count,
            base * pow(f, (count - 1) as nat) <= i64::MAX,
            f == factor as int,
            r@.len() == i,
            forall|j: int| 0 <= j < i ==> r@[j] as int == base * pow(f, j as nat),
            forall|j: int| 0 <= j < i ==> #[trigger] r@[j] >= 1,
            i < count ==> cur as int == base * pow(f, i as nat),
            cur >= 1,
    {
        r.push(cur);
        if i + 1 < count {
            proof {
                lemma_pow_positive(f, (i + 1) as nat);
                lemma_pow_increases(f as nat, (i + 1) as nat, (count - 1) as nat);
                lemma_mul_left_inequality(
                    base as int,
                    pow(f, (i + 1) as nat),
                    pow(f, (count - 1) as nat),
                );
                reveal(pow);
                assert(pow(f, (i + 1) as nat) == f * pow(f, i as nat));
                assert(base * (f * pow(f, i as nat)) == (base * pow(f, i as nat)) * f)
                    by (nonlinear_arith);
                assert(cur as int * f >= 1) by (nonlinear_arith)
                    requires
                        cur >= 1,
                        f >= 2,
                ;
            }
            cur = cur * factor;
        }
    }
    proof {
        assert forall|a: int, b: int| 0 <= a < b < count implies int_bounds(r@)[a] < int_bounds(
            r@,
        )[b] by {
            lemma_pow_increases(f as nat, a as nat, (b - 1) as nat);
            lemma_pow_positive(f, a as nat);
            lemma_pow_positive(f, (b - 1) as nat);
            reveal(pow);
            assert(pow(f, b as nat) == f * pow(f, (b - 1) as nat));
            assert(base * pow(f, a as nat) < base * pow(f, b as nat)) by (nonlinear_arith)
                requires
                    base >= 1,
                    f >= 2,
                    pow(f, a as nat) >= 1,
                    pow(f, (b - 1) as nat) >= 1,
                    pow(f, a as nat) <= pow(f, (b - 1) as nat),
                    pow(f, b as nat) == f * pow(f, (b - 1) as nat),
            ;
        }
    }
    r
}

/// Whether the model of a histogram family tracks the label set `k`.
pub open spec fn hists_contain(s: Seq<(LatencyLabelsV, HistogramV)>, k: LatencyLabelsV) -> bool
    decreases s.len(),
{
    if s.len() == 0 {
        false
    } else {
        s[0].0 == k || hists_contain(s.drop_first(), k)
    }
}

/// The histogram recorded for label set `k`; a fresh one over the family
/// bounds when `k` is not tracked.
pub open spec fn hists_lookup(
    s: Seq<(LatencyLabelsV, HistogramV)>,
    k: LatencyLabelsV,
    bounds: Seq<int>,
) -> HistogramV
    decreases s.len(),
{
    if s.len() == 0 {
        zero_hist(bounds)
    } else if s[0].0 == k {
        s[0].1
    } else {
        hists_lookup(s.drop_first(), k, bounds)
    }
}

/// The model of one observation against label set `k`: the first entry for
/// `k` absorbs the observation, or a fresh histogram that has absorbed it
/// is appended.
pub open spec fn hists_observe(
    s: Seq<(LatencyLabelsV, HistogramV)>,
    k: LatencyLabelsV,
    bounds: Seq<int>,
    v: int,
) -> Seq<(LatencyLabelsV, HistogramV)>
    decreases s.len(),
{
    if s.len() == 0 {
        seq![(k, spec_observe(zero_hist(bounds), v))]
    } else if s[0].0 == k {
        seq![(s[0].0, spec_observe(s[0].1, v))] + s.drop_first()
    } else {
        seq![s[0]] + hists_observe(s.drop_first(), k, bounds, v)
    }
}

/// Well-formedness of the family model: no label set appears twice, and
/// every tracked histogram is well-formed over the family bounds.
pub open spec fn hists_wf(s: Seq<(LatencyLabelsV, HistogramV)>, bounds: Seq<int>) -> bool
    decreases s.len(),
{
    if s.len() == 0 {
        true
    } else {
        &&& !hists_contain(s.drop_first(), s[0].0)
        &&& hist_wf(s[0].1)
        &&& s[0].1.bounds == bounds
        &&& hists_wf(s.drop_first(), bounds)
    }
}

/// A fresh histogram over ascending bounds is well-formed.
pub proof fn lemma_zero_hist_wf(bounds: Seq<int>)
    requires
        strictly_increasing(bounds),
    ensures
        hist_wf(zero_hist(bounds)),
{
    lemma_seq_sum_zero(zero_hist(bounds).buckets);
}

/// Tracking is witnessed exactly by an index holding the label set.
pub proof fn lemma_hists_contain_index(s: Seq<(LatencyLabelsV, HistogramV)>, k: LatencyLabelsV)
    ensures
        hists_contain(s, k) <==> exists|i: int| 0 <= i < s.len() && s[i].0 == k,
    decreases s.len(),
{
    if s.len() > 0 {
        lemma_hists_contain_index(s.drop_first(), k);
        if hists_contain(s.drop_first(), k) {
            let i = choose|i: int| 0 <= i < s.drop_first().len() && s.drop_first()[i].0 == k;
            assert(s[i + 1].0 == k);
        }
        if exists|i: int| 0 <= i < s.len() && s[i].0 == k {
            let i = choose|i: int| 0 <= i < s.len() && s[i].0 == k;
            if i > 0 {
                assert(s.drop_first()[i - 1].0 == k);
            }
        }
    }
}

/// Every tracked entry is a well-formed histogram over the family bounds.
pub proof fn lemma_hists_wf_index(s: Seq<(LatencyLabelsV, HistogramV)>, bounds: Seq<int>, i: int)
    requires
        hists_wf(s, bounds),
        0 <= i < s.len(),
    ensures
        hist_wf(s[i].1),
        s[i].1.bounds == bounds,
    decreases s.len(),
{
    if i > 0 {
        lemma_hists_wf_index(s.drop_first(), bounds, i - 1);
    }
}

/// When the first occurrence of `k` is at index `i`, an observation is the
/// point update of that index, and the looked-up histogram is that entry's.
pub proof fn lemma_hists_observe_at_index(
    s: Seq<(LatencyLabelsV, HistogramV)>,
    k: LatencyLabelsV,
    bounds: Seq<int>,
    v: int,
    i: int,
)
    requires
        0 <= i < s.len(),
        s[i].0 == k,
        forall|j: int| 0 <= j < i ==> s[j].0 != k,
    ensures
        hists_observe(s, k, bounds, v) =~= s.update(i, (k, spec_observe(s[i].1, v))),
        hists_lookup(s, k, bounds) == s[i].1,
        hists_contain(s, k),
    decreases s.len(),
{
    if i == 0 {
        assert(hists_observe(s, k, bounds, v) =~= seq![(s[0].0, spec_observe(s[0].1, v))]
            + s.drop_first());
    } else {
        assert(forall|j: int| 0 <= j < i - 1 ==> s.drop_first()[j].0 != k);
        assert(s.drop_first()[i - 1].0 == k);
        lemma_hists_observe_at_index(s.drop_first(), k, bounds, v, i - 1);
        assert(hists_observe(s, k, bounds, v) =~= seq![s[0]] + hists_observe(
            s.drop_first(),
            k,
            bounds,
            v,
        ));
        assert(s.update(i, (k, spec_observe(s[i].1, v))).drop_first() =~= s.drop_first().update(
            i - 1,
            (k, spec_observe(s.drop_first()[i - 1].1, v)),
        ));
    }
}

/// When the first occurrence of `k` is at index `i`, the looked-up
/// histogram is that entry's.
pub proof fn lemma_hists_lookup_at_index(
    s: Seq<(LatencyLabelsV, HistogramV)>,
    k: LatencyLabelsV,
    bounds: Seq<int>,
    i: int,
)
    requires
        0 <= i < s.len(),
        s[i].0 == k,
        forall|j: int| 0 <= j < i ==> s[j].0 != k,
    ensures
        hists_lookup(s, k, bounds) == s[i].1,
        hists_contain(s, k),
    decreases s.len(),
{
    if i > 0 {
        assert(forall|j: int| 0 <= j < i - 1 ==> s.drop_first()[j].0 != k);
        assert(s.drop_first()[i - 1].0 == k);
        lemma_hists_lookup_at_index(s.drop_first(), k, bounds, i - 1);
    }
}

/// When no index holds `k`, the looked-up histogram is the fresh one.
pub proof fn lemma_hists_lookup_absent(
    s: Seq<(LatencyLabelsV, HistogramV)>,
    k: LatencyLabelsV,
    bounds: Seq<int>,
)
    requires
        !hists_contain(s, k),
    ensures
        hists_lookup(s, k, bounds) == zero_hist(bounds),
    decreases s.len(),
{
    if s.len() > 0 {
        lemma_hists_lookup_absent(s.drop_first(), k, bounds);
    }
}

/// A first observation against an untracked label set appends exactly one
/// entry, holding a fresh histogram that has absorbed the observation.
pub proof fn lemma_hists_observe_new_key(
    s: Seq<(LatencyLabelsV, HistogramV)>,
    k: LatencyLabelsV,
    bounds: Seq<int>,
    v: int,
)
    requires
        !hists_contain(s, k),
    ensures
        hists_observe(s, k, bounds, v) =~= s.push((k, spec_observe(zero_hist(bounds), v))),
    decreases s.len(),
{
    if s.len() == 0 {
    } else {
        lemma_hists_observe_new_key(s.drop_first(), k, bounds, v);
        assert(hists_observe(s, k, bounds, v) =~= seq![s[0]] + hists_observe(
            s.drop_first(),
            k,
            bounds,
            v,
        ));
    }
}

/// What a single observation does to a well-formed family: the targeted
/// label set's histogram absorbs the observation, every other entry and
/// the set of tracked label sets but the target stay as they were, and the
/// family stays well-formed.
pub proof fn lemma_hists_observe_properties(
    s: Seq<(LatencyLabelsV, HistogramV)>,
    k: LatencyLabelsV,
    bounds: Seq<int>,
    v: int,
)
    requires
        hists_wf(s, bounds),
        strictly_increasing(bounds),
        hists_lookup(s, k, bounds).count < u64::MAX,
        -max_obs() <= v < max_obs(),
    ensures
        hists_wf(hists_observe(s, k, bounds, v), bounds),
        hists_lookup(hists_observe(s, k, bounds, v), k, bounds) == spec_observe(
            hists_lookup(s, k, bounds),
            v,
        ),
        forall|k2: LatencyLabelsV|
            k2 != k ==> hists_lookup(hists_observe(s, k, bounds, v), k2, bounds) == hists_lookup(
                s,
                k2,
                bounds,
            ),
        forall|k2: LatencyLabelsV|
            hists_contain(hists_observe(s, k, bounds, v), k2) <==> (hists_contain(s, k2) || k2
                == k),
{
    lemma_hists_observe_wf(s, k, bounds, v);
    lemma_hists_observe_lookup_same(s, k, bounds, v);
    assert forall|k2: LatencyLabelsV| k2 != k implies hists_lookup(
        hists_observe(s, k, bounds, v),
        k2,
        bounds,
    ) == hists_lookup(s, k2, bounds) by {
        lemma_hists_observe_lookup_other(s, k, k2, bounds, v);
    }
    assert forall|k2: LatencyLabelsV|
        hists_contain(hists_observe(s, k, bounds, v), k2) <==> (hists_contain(s, k2) || k2
            == k) by {
        lemma_hists_observe_contains(s, k, k2, bounds, v);
    }
}

/// An observation raises the targeted label set's histogram by exactly
/// that observation.
pub proof fn lemma_hists_observe_lookup_same(
    s: Seq<(LatencyLabelsV, HistogramV)>,
    k: LatencyLabelsV,
    bounds: Seq<int>,
    v: int,
)
    ensures
        hists_lookup(hists_observe(s, k, bounds, v), k, bounds) == spec_observe(
            hists_lookup(s, k, bounds),
            v,
        ),
    decreases s.len(),
{
    reveal_with_fuel(hists_lookup, 3);
    let t = hists_observe(s, k, bounds, v);
    if s.len() == 0 {
        assert(t[0] == (k, spec_observe(zero_hist(bounds), v)));
    } else if s[0].0 == k {
        assert(t[0] == (s[0].0, spec_observe(s[0].1, v)));
    } else {
        lemma_hists_observe_lookup_same(s.drop_first(), k, bounds, v);
        assert(t[0] == s[0]);
        assert(t.drop_first() =~= hists_observe(s.drop_first(), k, bounds, v));
    }
}

/// An observation against one label set never changes another's histogram.
pub proof fn lemma_hists_observe_lookup_other(
    s: Seq<(LatencyLabelsV, HistogramV)>,
    k: LatencyLabelsV,
    k2: LatencyLabelsV,
    bounds: Seq<int>,
    v: int,
)
    requires
        k2 != k,
    ensures
        hists_lookup(hists_observe(s, k, bounds, v), k2, bounds) == hists_lookup(s, k2, bounds),
    decreases s.len(),
{
    reveal_with_fuel(hists_lookup, 3);
    let t = hists_observe(s, k, bounds, v);
    if s.len() == 0 {
        assert(t[0] == (k, spec_observe(zero_hist(bounds), v)));
        assert(t.drop_first() =~= Seq::<(LatencyLabelsV, HistogramV)>::empty());
    } else if s[0].0 == k {
        assert(t[0] == (s[0].0, spec_observe(s[0].1, v)));
        assert(t.drop_first() =~= s.drop_first());
    } else {
        lemma_hists_observe_lookup_other(s.drop_first(), k, k2, bounds, v);
        assert(t[0] == s[0]);
        assert(t.drop_first() =~= hists_observe(s.drop_first(), k, bounds, v));
    }
}

/// After an observation the tracked label sets are the old ones plus the
/// target.
pub proof fn lemma_hists_observe_contains(
    s: Seq<(LatencyLabelsV, HistogramV)>,
    k: LatencyLabelsV,
    k2: LatencyLabelsV,
    bounds: Seq<int>,
    v: int,
)
    ensures
        hists_contain(hists_observe(s, k, bounds, v), k2) <==> (hists_contain(s, k2) || k2 == k),
    decreases s.len(),
{
    reveal_with_fuel(hists_contain, 3);
    let t = hists_observe(s, k, bounds, v);
    if s.len() == 0 {
        assert(t[0] == (k, spec_observe(zero_hist(bounds), v)));
        assert(t.drop_first() =~= Seq::<(LatencyLabelsV, HistogramV)>::empty());
    } else if s[0].0 == k {
        assert(t[0] == (s[0].0, spec_observe(s[0].1, v)));
        assert(t.drop_first() =~= s.drop_first());
    } else {
        lemma_hists_observe_contains(s.drop_first(), k, k2, bounds, v);
        assert(t[0] == s[0]);
        assert(t.drop_first() =~= hists_observe(s.drop_first(), k, bounds, v));
    }
}

/// An observation keeps the family well-formed.
pub proof fn lemma_hists_observe_wf(
    s: Seq<(LatencyLabelsV, HistogramV)>,
    k: LatencyLabelsV,
    bounds: Seq<int>,
    v: int,
)
    requires
        hists_wf(s, bounds),
        strictly_increasing(bounds),
        hists_lookup(s, k, bounds).count < u64::MAX,
        -max_obs() <= v < max_obs(),
    ensures
        hists_wf(hists_observe(s, k, bounds, v), bounds),
    decreases s.len(),
{
    reveal_with_fuel(hists_contain, 3);
    reveal_with_fuel(hists_lookup, 3);
    reveal_with_fuel(hists_wf, 3);
    let t = hists_observe(s, k, bounds, v);
    if s.len() == 0 {
        lemma_zero_hist_wf(bounds);
        lemma_spec_observe_wf(zero_hist(bounds), v);
        assert(t[0] == (k, spec_observe(zero_hist(bounds), v)));
        assert(t.drop_first() =~= Seq::<(LatencyLabelsV, HistogramV)>::empty());
    } else if s[0].0 == k {
        lemma_spec_observe_wf(s[0].1, v);
        assert(t[0] == (s[0].0, spec_observe(s[0].1, v)));
        assert(t.drop_first() =~= s.drop_first());
    } else {
        lemma_hists_observe_wf(s.drop_first(), k, bounds, v);
        assert forall|k2: LatencyLabelsV| hists_contain(
            hists_observe(s.drop_first(), k, bounds, v),
            k2,
        ) <==> (hists_contain(s.drop_first(), k2) || k2 == k) by {
            lemma_hists_observe_contains(s.drop_first(), k, k2, bounds, v);
        }
        assert(t[0] == s[0]);
        assert(t.drop_first() =~= hists_observe(s.drop_first(), k, bounds, v));
    }
}

/// Two neighbours in order at every index puts the whole sequence in order.
pub proof fn lemma_adjacent_pair(s: Seq<int>, i: int, j: int)
    requires
        forall|t: int| 0 <= t < s.len() - 1 ==> #[trigger] s[t] < s[t + 1],
        0 <= i < j < s.len(),
    ensures
        s[i] < s[j],
    decreases j - i,
{
    if j > i + 1 {
        lemma_adjacent_pair(s, i, j - 1);
        assert(s[j - 1] < s[j - 1 + 1]);
    } else {
        assert(s[i] < s[i + 1]);
    }
}

/// A sequence whose neighbours are all in order is strictly increasing.
pub proof fn lemma_adjacent_increasing(s: Seq<int>)
    requires
        forall|t: int| 0 <= t < s.len() - 1 ==> #[trigger] s[t] < s[t + 1],
    ensures
        strictly_increasing(s),
{
    assert forall|i: int, j: int| 0 <= i < j < s.len() implies s[i] < s[j] by {
        lemma_adjacent_pair(s, i, j);
    }
}

/// Family well-formedness is exactly pairwise distinctness of the label
/// sets together with per-entry histogram well-formedness over the family
/// bounds.
pub proof fn lemma_hists_wf_pairwise(s: Seq<(LatencyLabelsV, HistogramV)>, bounds: Seq<int>)
    ensures
        hists_wf(s, bounds) <==> ((forall|i: int, j: int|
            0 <= i < j < s.len() ==> s[i].0 != s[j].0) && (forall|i: int|
            0 <= i < s.len() ==> hist_wf(#[trigger] s[i].1) && s[i].1.bounds == bounds)),
    decreases s.len(),
{
    if s.len() > 0 {
        let t = s.drop_first();
        lemma_hists_wf_pairwise(t, bounds);
        lemma_hists_contain_index(t, s[0].0);
        if hists_wf(s, bounds) {
            assert forall|i: int, j: int| 0 <= i < j < s.len() implies s[i].0 != s[j].0 by {
                if i == 0 {
                    assert(t[j - 1].0 == s[j].0);
                } else {
                    assert(t[i - 1].0 == s[i].0);
                    assert(t[j - 1].0 == s[j].0);
                }
            }
            assert forall|i: int| 0 <= i < s.len() implies hist_wf(#[trigger] s[i].1) && s[i].1.bounds
                == bounds by {
                if i > 0 {
                    assert(t[i - 1].1 == s[i].1);
                }
            }
        }
        if (forall|i: int, j: int| 0 <= i < j < s.len() ==> s[i].0 != s[j].0) && (forall|i: int|
            0 <= i < s.len() ==> hist_wf(#[trigger] s[i].1) && s[i].1.bounds == bounds) {
            if hists_contain(t, s[0].0) {
                let w = choose|w: int| 0 <= w < t.len() && t[w].0 == s[0].0;
                assert(s[w + 1].0 == s[0].0);
                assert(s[0].0 != s[w + 1].0);
            }
            assert forall|i: int, j: int| 0 <= i < j < t.len() implies t[i].0 != t[j].0 by {
                assert(s[i + 1].0 == t[i].0);
                assert(s[j + 1].0 == t[j].0);
                assert(s[i + 1].0 != s[j + 1].0);
            }
            assert forall|i: int| 0 <= i < t.len() implies hist_wf(#[trigger] t[i].1) && t[i].1.bounds
                == bounds by {
                assert(s[i + 1].1 == t[i].1);
                assert(hist_wf(s[i + 1].1) && s[i + 1].1.bounds == bounds);
            }
            assert(hist_wf(s[0].1) && s[0].1.bounds == bounds);
        }
    }
}

/// A label-keyed family of histograms, all sharing one set of bucket
/// bounds fixed at construction, with get-or-create semantics.
pub struct HistogramFamily {
    bounds: Vec<i64>,
    entries: Vec<(LatencyLabels, Histogram)>,
}

impl View for HistogramFamily {
    type V = Seq<(LatencyLabelsV, HistogramV)>;

    closed spec fn view(&self) -> Seq<(LatencyLabelsV, HistogramV)> {
        self.entries@.map_values(|p: (LatencyLabels, Histogram)| (p.0@, p.1@))
    }
}

impl HistogramFamily {
    /// The family's fixed bucket bounds.
    pub closed spec fn spec_bounds(&self) -> Seq<int> {
        int_bounds(self.bounds@)
    }

    /// Ascending bounds, and every tracked histogram well-formed over them.
    pub open spec fn wf(&self) -> bool {
        &&& strictly_increasing(self.spec_bounds())
        &&& self.spec_bounds().len() < usize::MAX
        &&& hists_wf(self@, self.spec_bounds())
    }

    /// A new family over the given ascending bounds, tracking no label sets.
    pub fn new(bounds: Vec<i64>) -> (f: HistogramFamily)
        requires
            strictly_increasing(int_bounds(bounds@)),
            bounds@.len() < usize::MAX,
        ensures
            f@ =~= Seq::<(LatencyLabelsV, HistogramV)>::empty(),
            f.spec_bounds() == int_bounds(bounds@),
            f.wf(),
    {
        HistogramFamily { bounds, entries: Vec::new() }
    }

    /// The number of distinct label sets tracked so far.
    pub fn tracked_len(&self) -> (n: usize)
        ensures
            n == self@.len(),
    {
        self.entries.len()
    }

    /// The tracked label set and histogram at index `i`.
    pub fn entry_at(&self, i: usize) -> (r: (&LatencyLabels, &Histogram))
        requires
            i < self@.len(),
        ensures
            r.0@ == self@[i as int].0,
            r.1@ == self@[i as int].1,
    {
        (&self.entries[i].0, &self.entries[i].1)
    }

    /// Decides well-formedness: bound order, no label set tracked twice,
    /// and every tracked histogram well-formed over the family bounds.
    pub fn check_wf(&self) -> (b: bool)
        ensures
            b == self.wf(),
    {
        let nb = self.bounds.len();
        proof {
            assert(self.spec_bounds().len() == self.bounds@.len());
        }
        if nb == usize::MAX {
            return false;
        }
        if nb > 0 {
            let last = nb - 1;
            for i in 0..last
                invariant
                    nb == self.spec_bounds().len(),
                    last == nb - 1,
                    forall|t: int| 0 <= t < i ==> #[trigger] self.spec_bounds()[t] < self.spec_bounds()[t + 1],
            {
                if self.bounds[i] >= self.bounds[i + 1] {
                    proof {
                        assert(self.spec_bounds()[i as int] == self.bounds@[i as int] as int);
                        assert(self.spec_bounds()[i + 1] == self.bounds@[i + 1] as int);
                        assert(!strictly_increasing(self.spec_bounds()));
                    }
                    return false;
                }
            }
        }
        proof {
            lemma_adjacent_increasing(self.spec_bounds());
        }
        let n = self.entries.len();
        for i in 0..n
            invariant
                n == self@.len(),
                forall|a: int, b: int| 0 <= a < b < n && a < i ==> self@[a].0 != self@[b].0,
        {
            let start = i + 1;
            for j in start..n
                invariant
                    n == self@.len(),
                    i < n,
                    start == i + 1,
                    forall|a: int, b: int| 0 <= a < b < n && a < i ==> self@[a].0 != self@[b].0,
                    forall|b: int| i < b < j ==> self@[i as int].0 != self@[b].0,
            {
                let same = self.entries[i].0 == self.entries[j].0;
                if same {
                    proof {
                        assert(self@[i as int].0 == self@[j as int].0);
                        lemma_hists_wf_pairwise(self@, self.spec_bounds());
                        assert(!hists_wf(self@, self.spec_bounds()));
                    }
                    return false;
                }
            }
        }
        for i in 0..n
            invariant
                n == self@.len(),
                nb == self.spec_bounds().len(),
                forall|t: int|
                    0 <= t < i ==> hist_wf(#[trigger] self@[t].1) && self@[t].1.bounds
                        == self.spec_bounds(),
        {
            let h = &self.entries[i].1;
            proof {
                assert(self@[i as int].1 == h@);
            }
            if !h.check_wf() {
                proof {
                    lemma_hists_wf_pairwise(self@, self.spec_bounds());
                    assert(!hists_wf(self@, self.spec_bounds()));
                }
                return false;
            }
            if h.num_bounds() != nb {
                proof {
                    assert(self@[i as int].1.bounds.len() != self.spec_bounds().len());
                    lemma_hists_wf_pairwise(self@, self.spec_bounds());
                    assert(!hists_wf(self@, self.spec_bounds()));
                }
                return false;
            }
            for j in 0..nb
                invariant
                    n == self@.len(),
                    i < n,
                    nb == self.spec_bounds().len(),
                    h@ == self@[i as int].1,
                    self@[i as int].1.bounds.len() == nb,
                    forall|t: int|
                        0 <= t < j ==> self@[i as int].1.bounds[t] == self.spec_bounds()[t],
            {
                let matches_bound = h.bound_at(j) == self.bounds[j];
                if !matches_bound {
                    proof {
                        assert(self@[i as int].1.bounds[j as int] != self.spec_bounds()[j as int]);
                        lemma_hists_wf_pairwise(self@, self.spec_bounds());
                        assert(!hists_wf(self@, self.spec_bounds()));
                    }
                    return false;
                }
            }
            proof {
                assert(self@[i as int].1.bounds =~= self.spec_bounds());
            }
        }
        proof {
            lemma_hists_wf_pairwise(self@, self.spec_bounds());
        }
        true
    }

    /// The index of the entry tracking `l`, when there is one.
    fn find_entry(&self, l: &LatencyLabels) -> (r: Option<usize>)
        requires
            self.wf(),
        ensures
            match r {
                Some(i) => 0 <= i < self@.len() && self@[i as int].0 == l@ && hists_lookup(
                    self@,
                    l@,
                    self.spec_bounds(),
                ) == self@[i as int].1,
                None => !hists_contain(self@, l@) && hists_lookup(self@, l@, self.spec_bounds())
                    == zero_hist(self.spec_bounds()),
            },
    {
        let n = self.entries.len();
        for i in 0..n
            invariant
                n == self@.len(),
                self.wf(),
                forall|j: int| 0 <= j < i ==> self@[j].0 != l@,
        {
            let e = &self.entries[i];
            if e.0 == *l {
                proof {
                    lemma_hists_lookup_at_index(self@, l@, self.spec_bounds(), i as int);
                }
                return Some(i);
            }
        }
        proof {
            lemma_hists_contain_index(self@, l@);
            lemma_hists_lookup_absent(self@, l@, self.spec_bounds());
        }
        None
    }

    /// Locates or creates the histogram for `l` (seeded with the family's
    /// fixed bounds) and records one observation of `v` in it; every other
    /// label set's histogram is untouched.
    pub fn observe(&mut self, l: &LatencyLabels, v: i64)
        requires
            old(self).wf(),
            hists_lookup(old(self)@, l@, old(self).spec_bounds()).count < u64::MAX,
        ensures
            final(self).wf(),
            final(self).spec_bounds() == old(self).spec_bounds(),
            final(self)@ =~= hists_observe(old(self)@, l@, old(self).spec_bounds(), v as int),
            hists_lookup(final(self)@, l@, old(self).spec_bounds()) == spec_observe(
                hists_lookup(old(self)@, l@, old(self).spec_bounds()),
                v as int,
            ),
            forall|k: LatencyLabelsV|
                k != l@ ==> hists_lookup(final(self)@, k, old(self).spec_bounds()) == hists_lookup(
                    old(self)@,
                    k,
                    old(self).spec_bounds(),
                ),
            forall|k: LatencyLabelsV|
                hists_contain(final(self)@, k) <==> (hists_contain(old(self)@, k) || k == l@),
    {
        let ghost bounds = old(self).spec_bounds();
        let n = self.entries.len();
        for i in 0..n
            invariant
                n == self@.len(),
                self == old(self),
                old(self).wf(),
                bounds == old(self).spec_bounds(),
                hists_lookup(old(self)@, l@, bounds).count < u64::MAX,
                forall|j: int| 0 <= j < i ==> self@[j].0 != l@,
        {
            let found = self.entries[i].0 == *l;
            if found {
                proof {
                    lemma_hists_observe_at_index(old(self)@, l@, bounds, v as int, i as int);
                    lemma_hists_wf_index(old(self)@, bounds, i as int);
                }
                let h = &mut self.entries[i].1;
                h.observe(v);
                proof {
                    assert(self@ =~= hists_observe(old(self)@, l@, bounds, v as int));
                    lemma_hists_observe_properties(old(self)@, l@, bounds, v as int);
                }
                return ;
            }
        }
        proof {
            lemma_hists_contain_index(old(self)@, l@);
            lemma_hists_observe_new_key(old(self)@, l@, bounds, v as int);
            lemma_hists_lookup_absent(old(self)@, l@, bounds);
        }
        let bs = copy_bounds(&self.bounds);
        let mut h = Histogram::new(bs);
        h.observe(v);
        let fresh = l.duplicate();
        self.entries.push((fresh, h));
        proof {
            assert(self@ =~= hists_observe(old(self)@, l@, bounds, v as int));
            lemma_hists_observe_properties(old(self)@, l@, bounds, v as int);
        }
    }

    /// The number of observations recorded for `l`, zero when never seen.
    pub fn count_for(&self, l: &LatencyLabels) -> (c: u64)
        requires
            self.wf(),
        ensures
            c as nat == hists_lookup(self@, l@, self.spec_bounds()).count,
    {
        match self.find_entry(l) {
            Some(i) => self.entries[i].1.count(),
            None => 0,
        }
    }

    /// The running sum of values observed for `l`, zero when never seen.
    pub fn sum_for(&self, l: &LatencyLabels) -> (s: i128)
        requires
            self.wf(),
        ensures
            s as int == hists_lookup(self@, l@, self.spec_bounds()).sum,
    {
        match self.find_entry(l) {
            Some(i) => self.entries[i].1.sum(),
            None => 0,
        }
    }

    /// The count in bucket `j` of the histogram for `l`, zero when `l` has
    /// never been seen.
    pub fn bucket_for(&self, l: &LatencyLabels, j: usize) -> (c: u64)
        requires
            self.wf(),
            j < self.spec_bounds().len() + 1,
        ensures
            c as nat == hists_lookup(self@, l@, self.spec_bounds()).buckets[j as int],
    {
        match self.find_entry(l) {
            Some(i) => {
                proof {
                    lemma_hists_wf_index(self@, self.spec_bounds(), i as int);
                }
                self.entries[i].1.bucket_at(j)
            },
            None => 0,
        }
    }
}

/// The latency metric: a histogram family keyed by [`LatencyLabels`].
pub struct HisgMetrics {
    requests_hig: HistogramFamily,
}

impl View for HisgMetrics {
    type V = Seq<(LatencyLabelsV, HistogramV)>;

    closed spec fn view(&self) -> Seq<(LatencyLabelsV, HistogramV)> {
        self.requests_hig@
    }
}

impl HisgMetrics {
    /// The fixed bucket bounds shared by every tracked histogram.
    pub closed spec fn spec_bounds(&self) -> Seq<int> {
        self.requests_hig.spec_bounds()
    }

    /// Ascending bounds, and every tracked histogram well-formed over them.
    pub open spec fn wf(&self) -> bool {
        &&& strictly_increasing(self.spec_bounds())
        &&& self.spec_bounds().len() < usize::MAX
        &&& hists_wf(self@, self.spec_bounds())
    }

    /// A fresh metric over the given ascending bounds.
    pub fn new(bounds: Vec<i64>) -> (m: HisgMetrics)
        requires
            strictly_increasing(int_bounds(bounds@)),
            bounds@.len() < usize::MAX,
        ensures
            m@ =~= Seq::<(LatencyLabelsV, HistogramV)>::empty(),
            m.spec_bounds() == int_bounds(bounds@),
            m.wf(),
    {
        HisgMetrics { requests_hig: HistogramFamily::new(bounds) }
    }

    /// Locates or creates the histogram for the label set and records one
    /// observation of the duration `d` in it.
    pub fn hisg_request(&mut self, ll: &LatencyLabels, d: i64)
        requires
            old(self).wf(),
            hists_lookup(old(self)@, ll@, old(self).spec_bounds()).count < u64::MAX,
        ensures
            final(self).wf(),
            final(self).spec_bounds() == old(self).spec_bounds(),
            final(self)@ =~= hists_observe(old(self)@, ll@, old(self).spec_bounds(), d as int),
            hists_lookup(final(self)@, ll@, old(self).spec_bounds()) == spec_observe(
                hists_lookup(old(self)@, ll@, old(self).spec_bounds()),
                d as int,
            ),
            forall|k: LatencyLabelsV|
                k != ll@ ==> hists_lookup(final(self)@, k, old(self).spec_bounds())
                    == hists_lookup(old(self)@, k, old(self).spec_bounds()),
            forall|k: LatencyLabelsV|
                hists_contain(final(self)@, k) <==> (hists_contain(old(self)@, k) || k == ll@),
    {
        self.requests_hig.observe(ll, d);
    }

    /// The number of observations recorded for the label set.
    pub fn latency_count(&self, ll: &LatencyLabels) -> (c: u64)
        requires
            self.wf(),
        ensures
            c as nat == hists_lookup(self@, ll@, self.spec_bounds()).count,
    {
        self.requests_hig.count_for(ll)
    }

    /// The running sum of durations observed for the label set.
    pub fn latency_sum(&self, ll: &LatencyLabels) -> (s: i128)
        requires
            self.wf(),
        ensures
            s as int == hists_lookup(self@, ll@, self.spec_bounds()).sum,
    {
        self.requests_hig.sum_for(ll)
    }

    /// The count in bucket `j` of the label set's histogram.
    pub fn latency_bucket(&self, ll: &LatencyLabels, j: usize) -> (c: u64)
        requires
            self.wf(),
            j < self.spec_bounds().len() + 1,
        ensures
            c as nat == hists_lookup(self@, ll@, self.spec_bounds()).buckets[j as int],
    {
        self.requests_hig.bucket_for(ll, j)
    }

    /// The number of distinct label sets tracked so far.
    pub fn tracked_len(&self) -> (n: usize)
        ensures
            n == self@.len(),
    {
        self.requests_hig.tracked_len()
    }

    /// The tracked label set and histogram at index `i`.
    pub fn entry_at(&self, i: usize) -> (r: (&LatencyLabels, &Histogram))
        requires
            i < self@.len(),
        ensures
            r.0@ == self@[i as int].0,
            r.1@ == self@[i as int].1,
    {
        self.requests_hig.entry_at(i)
    }

    /// Decides well-formedness: bound order, no label set tracked twice,
    /// and every tracked histogram well-formed over the family bounds.
    pub fn check_wf(&self) -> (b: bool)
        ensures
            b == self.wf(),
    {
        self.requests_hig.check_wf()
    }
}

} // verus!
