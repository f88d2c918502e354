//! The library's laws: properties of whole operation sequences, proved
//! from the models that the operations' contracts are stated over.

use vstd::prelude::*;
use crate::labels::AppLabelsV;
use crate::counter::{
    counter_lookup, counters_contain, counters_inc, lemma_contains_index, lemma_inc_at_index,
    lemma_inc_lookup_other, lemma_inc_lookup_same, lemma_inc_new_key,
};
use crate::histogram::{
    bucket_index, hist_wf, lemma_bucket_index_props, spec_observe, HistogramV,
};
use crate::registry::{spec_encode, RegistryV};

verus! {

/// The model of a whole sequence of increment operations, applied in order.
pub open spec fn apply_increments(
    s: Seq<(AppLabelsV, nat)>,
    ops: Seq<AppLabelsV>,
) -> Seq<(AppLabelsV, nat)>
    decreases ops.len(),
{
    if ops.len() == 0 {
        s
    } else {
        apply_increments(counters_inc(s, ops[0]), ops.drop_first())
    }
}

/// How often a label set occurs in a sequence of increment operations.
pub open spec fn count_of(ops: Seq<AppLabelsV>, k: AppLabelsV) -> nat
    decreases ops.len(),
{
    if ops.len() == 0 {
        0
    } else {
        (if ops[0] == k {
            1nat
        } else {
            0nat
        }) + count_of(ops.drop_first(), k)
    }
}

/// After any sequence of increment operations, a label set's counter
/// stands at its starting count plus exactly the number of increments
/// issued against it: no update is lost and none is double-counted.
pub proof fn lemma_counter_counts_increments(
    s: Seq<(AppLabelsV, nat)>,
    ops: Seq<AppLabelsV>,
    k: AppLabelsV,
)
    ensures
        counter_lookup(apply_increments(s, ops), k) == counter_lookup(s, k) + count_of(ops, k),
    decreases ops.len(),
{
    if ops.len() > 0 {
        lemma_counter_counts_increments(counters_inc(s, ops[0]), ops.drop_first(), k);
        if ops[0] == k {
            lemma_inc_lookup_same(s, k);
        } else {
            lemma_inc_lookup_other(s, ops[0], k);
        }
    }
}

/// An observation changes exactly one bucket count, by exactly one — the
/// first bucket whose bound admits the value, or the overflow bucket —
/// and adds exactly the value to the running sum and exactly one to the
/// observation count.
pub proof fn lemma_observe_one_bucket(h: HistogramV, v: int)
    requires
        hist_wf(h),
    ensures
        ({
            let k = bucket_index(h.bounds, v);
            let h2 = spec_observe(h, v);
            &&& 0 <= k < h.buckets.len()
            &&& k < h.bounds.len() ==> v <= h.bounds[k]
            &&& forall|j: int| 0 <= j < k ==> h.bounds[j] < v
            &&& h2.buckets[k] == h.buckets[k] + 1
            &&& forall|j: int| 0 <= j < h.buckets.len() && j != k ==> h2.buckets[j] == h.buckets[j]
            &&& h2.sum == h.sum + v
            &&& h2.count == h.count + 1
        }),
{
    lemma_bucket_index_props(h.bounds, v);
}

/// Two first-time increments against the same previously untracked label
/// set create exactly one entry, holding the count two.
pub proof fn lemma_first_use_single_entry(s: Seq<(AppLabelsV, nat)>, k: AppLabelsV)
    requires
        !counters_contain(s, k),
    ensures
        counters_inc(counters_inc(s, k), k) =~= s.push((k, 2nat)),
{
    lemma_inc_new_key(s, k);
    lemma_contains_index(s, k);
    let t = s.push((k, 1nat));
    assert(forall|j: int| 0 <= j < s.len() ==> t[j].0 != k);
    lemma_inc_at_index(t, k, s.len() as int);
    assert(counters_inc(t, k) =~= t.update(s.len() as int, (k, 2nat)));
    assert(t.update(s.len() as int, (k, 2nat)) =~= s.push((k, 2nat)));
}

/// Scraping is idempotent: with no observation between them, two encode
/// passes read equal registry states and produce character-identical
/// documents.
pub proof fn lemma_encode_idempotent(r1: RegistryV, r2: RegistryV)
    requires
        r1 == r2,
    ensures
        spec_encode(r1) == spec_encode(r2),
{
}

} // verus!
