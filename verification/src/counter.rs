//! Counters and the label-keyed counter family.
//!
//! A counter is a non-negative integer that is only ever incremented. A
//! counter family maps label sets to counters, creating the zero-valued
//! counter for a label set the first time that label set is observed.

use vstd::prelude::*;
use crate::labels::{AppLabels, AppLabelsV};

verus! {

/// A monotonically increasing event count.
pub struct Counter {
    value: u64,
}

impl View for Counter {
    type V = nat;

    closed spec fn view(&self) -> nat {
        self.value as nat
    }
}

impl Counter {
    /// A fresh counter starts at zero.
    pub fn new() -> (c: Counter)
        ensures
            c@ == 0,
    {
        Counter { value: 0 }
    }

    /// Adds exactly one to the count.
    pub fn inc(&mut self)
        requires
            old(self)@ < u64::MAX,
        ensures
            final(self)@ == old(self)@ + 1,
    {
        self.value = self.value + 1;
    }

    /// The current count.
    pub fn get(&self) -> (v: u64)
        ensures
            v as nat == self@,
    {
        self.value
    }
}

/// Whether the model of a counter family tracks the label set `k`.
pub open spec fn counters_contain(s: Seq<(AppLabelsV, nat)>, k: AppLabelsV) -> bool
    decreases s.len(),
{
    if s.len() == 0 {
        false
    } else {
        s[0].0 == k || counters_contain(s.drop_first(), k)
    }
}

/// The count recorded for label set `k`; zero when `k` is not tracked.
pub open spec fn counter_lookup(s: Seq<(AppLabelsV, nat)>, k: AppLabelsV) -> nat
    decreases s.len(),
{
    if s.len() == 0 {
        0
    } else if s[0].0 == k {
        s[0].1
    } else {
        counter_lookup(s.drop_first(), k)
    }
}

/// The model of one increment against label set `k`: the first entry for
/// `k` grows by one, or a fresh entry with count one is appended.
pub open spec fn counters_inc(s: Seq<(AppLabelsV, nat)>, k: AppLabelsV) -> Seq<(AppLabelsV, nat)>
    decreases s.len(),
{
    if s.len() == 0 {
        seq![(k, 1nat)]
    } else if s[0].0 == k {
        seq![(s[0].0, (s[0].1 + 1) as nat)] + s.drop_first()
    } else {
        seq![s[0]] + counters_inc(s.drop_first(), k)
    }
}

/// Well-formedness of the model: no label set appears twice.
pub open spec fn counters_wf(s: Seq<(AppLabelsV, nat)>) -> bool
    decreases s.len(),
{
    if s.len() == 0 {
        true
    } else {
        !counters_contain(s.drop_first(), s[0].0) && counters_wf(s.drop_first())
    }
}

/// Tracking is witnessed exactly by an index holding the label set.
pub proof fn lemma_contains_index(s: Seq<(AppLabelsV, nat)>, k: AppLabelsV)
    ensures
        counters_contain(s, k) <==> exists|i: int| 0 <= i < s.len() && s[i].0 == k,
    decreases s.len(),
{
    if s.len() > 0 {
        lemma_contains_index(s.drop_first(), k);
        if counters_contain(s.drop_first(), k) {
            let i = choose|i: int| 0 <= i < s.drop_first().len() && s.drop_first()[i].0 == k;
            assert(s[i + 1].0 == k);
        }
        if exists|i: int| 0 <= i < s.len() && s[i].0 == k {
            let i = choose|i: int| 0 <= i < s.len() && s[i].0 == k;
            if i > 0 {
                assert(s.drop_first()[i - 1].0 == k);
            }
        }
    }
}

/// An increment raises the count of the targeted label set by exactly one.
pub proof fn lemma_inc_lookup_same(s: Seq<(AppLabelsV, nat)>, k: AppLabelsV)
    ensures
        counter_lookup(counters_inc(s, k), k) == counter_lookup(s, k) + 1,
    decreases s.len(),
{
    if s.len() == 0 {
        assert(counters_inc(s, k)[0] == (k, 1nat));
    } else if s[0].0 == k {
        assert(counters_inc(s, k)[0] == (s[0].0, (s[0].1 + 1) as nat));
    } else {
        lemma_inc_lookup_same(s.drop_first(), k);
        assert(counters_inc(s, k)[0] == s[0]);
        assert(counters_inc(s, k).drop_first() =~= counters_inc(s.drop_first(), k));
    }
}

/// An increment of one label set never changes the count of another.
pub proof fn lemma_inc_lookup_other(s: Seq<(AppLabelsV, nat)>, k: AppLabelsV, k2: AppLabelsV)
    requires
        k2 != k,
    ensures
        counter_lookup(counters_inc(s, k), k2) == counter_lookup(s, k2),
    decreases s.len(),
{
    reveal_with_fuel(counter_lookup, 3);
    if s.len() == 0 {
        assert(counters_inc(s, k)[0] == (k, 1nat));
        assert(counters_inc(s, k).drop_first() =~= Seq::<(AppLabelsV, nat)>::empty());
    } else if s[0].0 == k {
        assert(counters_inc(s, k)[0] == (s[0].0, (s[0].1 + 1) as nat));
        assert(counters_inc(s, k).drop_first() =~= s.drop_first());
    } else {
        lemma_inc_lookup_other(s.drop_first(), k, k2);
        assert(counters_inc(s, k)[0] == s[0]);
        assert(counters_inc(s, k).drop_first() =~= counters_inc(s.drop_first(), k));
    }
}

/// After an increment the tracked label sets are the old ones plus the target.
pub proof fn lemma_inc_contains(s: Seq<(AppLabelsV, nat)>, k: AppLabelsV, k2: AppLabelsV)
    ensures
        counters_contain(counters_inc(s, k), k2) <==> (counters_contain(s, k2) || k2 == k),
    decreases s.len(),
{
    reveal_with_fuel(counters_contain, 3);
    if s.len() == 0 {
        assert(counters_inc(s, k)[0] == (k, 1nat));
        assert(counters_inc(s, k).drop_first() =~= Seq::<(AppLabelsV, nat)>::empty());
    } else if s[0].0 == k {
        assert(counters_inc(s, k)[0] == (s[0].0, (s[0].1 + 1) as nat));
        assert(counters_inc(s, k).drop_first() =~= s.drop_first());
    } else {
        lemma_inc_contains(s.drop_first(), k, k2);
        assert(counters_inc(s, k)[0] == s[0]);
        assert(counters_inc(s, k).drop_first() =~= counters_inc(s.drop_first(), k));
    }
}

/// A first increment against an untracked label set appends exactly one
/// entry, with count one.
pub proof fn lemma_inc_new_key(s: Seq<(AppLabelsV, nat)>, k: AppLabelsV)
    requires
        !counters_contain(s, k),
    ensures
        counters_inc(s, k) =~= s.push((k, 1nat)),
    decreases s.len(),
{
    if s.len() == 0 {
    } else {
        lemma_inc_new_key(s.drop_first(), k);
        assert(counters_inc(s, k) =~= seq![s[0]] + counters_inc(s.drop_first(), k));
    }
}

/// An increment keeps the family well-formed.
pub proof fn lemma_inc_wf(s: Seq<(AppLabelsV, nat)>, k: AppLabelsV)
    requires
        counters_wf(s),
    ensures
        counters_wf(counters_inc(s, k)),
    decreases s.len(),
{
    reveal_with_fuel(counters_wf, 3);
    reveal_with_fuel(counters_contain, 3);
    if s.len() == 0 {
        assert(counters_inc(s, k).drop_first() =~= Seq::<(AppLabelsV, nat)>::empty());
    } else if s[0].0 == k {
        let t = counters_inc(s, k);
        assert(t[0] == (s[0].0, (s[0].1 + 1) as nat));
        assert(t.drop_first() =~= s.drop_first());
    } else {
        lemma_inc_wf(s.drop_first(), k);
        lemma_inc_contains(s.drop_first(), k, s[0].0);
        let t = counters_inc(s, k);
        assert(t[0] == s[0]);
        assert(t.drop_first() =~= counters_inc(s.drop_first(), k));
    }
}

/// When the first occurrence of `k` is at index `i`, an increment is the
/// point update of that index, and the looked-up count is that entry's.
pub proof fn lemma_inc_at_index(s: Seq<(AppLabelsV, nat)>, k: AppLabelsV, i: int)
    requires
        0 <= i < s.len(),
        s[i].0 == k,
        forall|j: int| 0 <= j < i ==> s[j].0 != k,
    ensures
        counters_inc(s, k) =~= s.update(i, (k, (s[i].1 + 1) as nat)),
        counter_lookup(s, k) == s[i].1,
        counters_contain(s, k),
    decreases s.len(),
{
    if i == 0 {
        assert(counters_inc(s, k) =~= seq![(s[0].0, (s[0].1 + 1) as nat)] + s.drop_first());
    } else {
        assert(forall|j: int| 0 <= j < i - 1 ==> s.drop_first()[j].0 != k);
        assert(s.drop_first()[i - 1].0 == k);
        lemma_inc_at_index(s.drop_first(), k, i - 1);
        assert(counters_inc(s, k) =~= seq![s[0]] + counters_inc(s.drop_first(), k));
        assert(s.update(i, (k, (s[i].1 + 1) as nat)).drop_first() =~= s.drop_first().update(
            i - 1,
            (k, (s.drop_first()[i - 1].1 + 1) as nat),
        ));
    }
}

/// When no index holds `k`, the looked-up count is zero.
pub proof fn lemma_lookup_absent(s: Seq<(AppLabelsV, nat)>, k: AppLabelsV)
    requires
        !counters_contain(s, k),
    ensures
        counter_lookup(s, k) == 0,
    decreases s.len(),
{
    if s.len() > 0 {
        lemma_lookup_absent(s.drop_first(), k);
    }
}

/// What a single increment does to a well-formed family: the targeted
/// count grows by one, every other count and the set of tracked label
/// sets but the target stay as they were, and the family stays well-formed.
pub proof fn lemma_inc_properties(s: Seq<(AppLabelsV, nat)>, k: AppLabelsV)
    requires
        counters_wf(s),
    ensures
        counters_wf(counters_inc(s, k)),
        counter_lookup(counters_inc(s, k), k) == counter_lookup(s, k) + 1,
        forall|k2: AppLabelsV|
            k2 != k ==> counter_lookup(counters_inc(s, k), k2) == counter_lookup(s, k2),
        forall|k2: AppLabelsV|
            counters_contain(counters_inc(s, k), k2) <==> (counters_contain(s, k2) || k2 == k),
{
    lemma_inc_wf(s, k);
    lemma_inc_lookup_same(s, k);
    assert forall|k2: AppLabelsV| k2 != k implies counter_lookup(counters_inc(s, k), k2)
        == counter_lookup(s, k2) by {
        lemma_inc_lookup_other(s, k, k2);
    }
    assert forall|k2: AppLabelsV|
        counters_contain(counters_inc(s, k), k2) <==> (counters_contain(s, k2) || k2 == k) by {
        lemma_inc_contains(s, k, k2);
    }
}

/// Well-formedness is exactly pairwise distinctness of the label sets.
pub proof fn lemma_counters_wf_pairwise(s: Seq<(AppLabelsV, nat)>)
    ensures
        counters_wf(s) <==> (forall|i: int, j: int| 0 <= i < j < s.len() ==> s[i].0 != s[j].0),
    decreases s.len(),
{
    if s.len() > 0 {
        let t = s.drop_first();
        lemma_counters_wf_pairwise(t);
        lemma_contains_index(t, s[0].0);
        if counters_wf(s) {
            assert forall|i: int, j: int| 0 <= i < j < s.len() implies s[i].0 != s[j].0 by {
                if i == 0 {
                    assert(t[j - 1].0 == s[j].0);
                } else {
                    assert(t[i - 1].0 == s[i].0);
                    assert(t[j - 1].0 == s[j].0);
                }
            }
        }
        if forall|i: int, j: int| 0 <= i < j < s.len() ==> s[i].0 != s[j].0 {
            if counters_contain(t, s[0].0) {
                let w = choose|w: int| 0 <= w < t.len() && t[w].0 == s[0].0;
                assert(s[w + 1].0 == s[0].0);
                assert(s[0].0 != s[w + 1].0);
            }
            assert forall|i: int, j: int| 0 <= i < j < t.len() implies t[i].0 != t[j].0 by {
                assert(s[i + 1].0 == t[i].0);
                assert(s[j + 1].0 == t[j].0);
                assert(s[i + 1].0 != s[j + 1].0);
            }
        }
    }
}

/// A label-keyed family of counters with get-or-create semantics.
pub struct CounterFamily {
    entries: Vec<(AppLabels, Counter)>,
}

impl View for CounterFamily {
    type V = Seq<(AppLabelsV, nat)>;

    closed spec fn view(&self) -> Seq<(AppLabelsV, nat)> {
        self.entries@.map_values(|p: (AppLabels, Counter)| (p.0@, p.1@))
    }
}

impl CounterFamily {
    /// No label set appears twice among the tracked entries.
    pub open spec fn wf(&self) -> bool {
        counters_wf(self@)
    }

    /// A new family tracks no label sets.
    pub fn new() -> (f: CounterFamily)
        ensures
            f@ =~= Seq::<(AppLabelsV, nat)>::empty(),
            f.wf(),
    {
        CounterFamily { entries: Vec::new() }
    }

    /// The number of distinct label sets tracked so far.
    pub fn tracked_len(&self) -> (n: usize)
        ensures
            n == self@.len(),
    {
        self.entries.len()
    }

    /// The tracked label set and count at index `i`.
    pub fn entry_at(&self, i: usize) -> (r: (&AppLabels, u64))
        requires
            i < self@.len(),
        ensures
            r.0@ == self@[i as int].0,
            r.1 as nat == self@[i as int].1,
    {
        (&self.entries[i].0, self.entries[i].1.get())
    }

    /// Decides well-formedness: whether any label set is tracked twice.
    pub fn check_wf(&self) -> (b: bool)
        ensures
            b == counters_wf(self@),
    {
        let n = self.entries.len();
        for i in 0..n
            invariant
                n == self@.len(),
                forall|a: int, b: int| 0 <= a < b < n && a < i ==> self@[a].0 != self@[b].0,
        {
            let start = i + 1;
            for j in start..n
                invariant
                    n == self@.len(),
                    i < n,
                    start == i + 1,
                    forall|a: int, b: int| 0 <= a < b < n && a < i ==> self@[a].0 != self@[b].0,
                    forall|b: int| i < b < j ==> self@[i as int].0 != self@[b].0,
            {
                let same = self.entries[i].0 == self.entries[j].0;
                if same {
                    proof {
                        assert(self@[i as int].0 == self@[j as int].0);
                        lemma_counters_wf_pairwise(self@);
                        assert(!counters_wf(self@));
                    }
                    return false;
                }
            }
        }
        proof {
            lemma_counters_wf_pairwise(self@);
        }
        true
    }

    /// The count recorded for `l`, zero when `l` has never been observed.
    pub fn get(&self, l: &AppLabels) -> (v: u64)
        requires
            self.wf(),
        ensures
            v as nat == counter_lookup(self@, l@),
    {
        let n = self.entries.len();
        for i in 0..n
            invariant
                n == self@.len(),
                self.wf(),
                forall|j: int| 0 <= j < i ==> self@[j].0 != l@,
        {
            let e = &self.entries[i];
            if e.0 == *l {
                proof {
                    lemma_inc_at_index(self@, l@, i as int);
                }
                return e.1.get();
            }
        }
        proof {
            lemma_contains_index(self@, l@);
            lemma_lookup_absent(self@, l@);
        }
        0
    }

    /// Locates or creates the counter for `l` and increments it by one.
    pub fn increment(&mut self, l: &AppLabels)
        requires
            old(self).wf(),
            counter_lookup(old(self)@, l@) < u64::MAX,
        ensures
            final(self).wf(),
            final(self)@ =~= counters_inc(old(self)@, l@),
            counter_lookup(final(self)@, l@) == counter_lookup(old(self)@, l@) + 1,
            forall|k: AppLabelsV|
                k != l@ ==> counter_lookup(final(self)@, k) == counter_lookup(old(self)@, k),
            forall|k: AppLabelsV|
                counters_contain(final(self)@, k) <==> (counters_contain(old(self)@, k) || k
                    == l@),
    {
        let n = self.entries.len();
        for i in 0..n
            invariant
                n == self@.len(),
                self == old(self),
                old(self).wf(),
                forall|j: int| 0 <= j < i ==> self@[j].0 != l@,
                counter_lookup(self@, l@) < u64::MAX,
        {
            let found = self.entries[i].0 == *l;
            if found {
                proof {
                    lemma_inc_at_index(old(self)@, l@, i as int);
                }
                let c = &mut self.entries[i].1;
                c.inc();
                proof {
                    assert(self@ =~= counters_inc(old(self)@, l@));
                    lemma_inc_properties(old(self)@, l@);
                }
                return ;
            }
        }
        proof {
            lemma_contains_index(old(self)@, l@);
            lemma_inc_new_key(old(self)@, l@);
        }
        let fresh = AppLabels {
            method: l.method,
            script_name: l.script_name.clone(),
            namespace: l.namespace.clone(),
            app: l.app.clone(),
        };
        let mut created = Counter::new();
        created.inc();
        self.entries.push((fresh, created));
        proof {
            assert(self@ =~= counters_inc(old(self)@, l@));
            lemma_inc_properties(old(self)@, l@);
        }
    }
}

/// The request-counter metric: a counter family keyed by [`AppLabels`].
pub struct CountMetrics {
    requests: CounterFamily,
}

impl View for CountMetrics {
    type V = Seq<(AppLabelsV, nat)>;

    closed spec fn view(&self) -> Seq<(AppLabelsV, nat)> {
        self.requests@
    }
}

impl CountMetrics {
    /// No label set appears twice among the tracked counters.
    pub open spec fn wf(&self) -> bool {
        counters_wf(self@)
    }

    /// A fresh metric tracking no label sets.
    pub fn new() -> (m: CountMetrics)
        ensures
            m@ =~= Seq::<(AppLabelsV, nat)>::empty(),
            m.wf(),
    {
        CountMetrics { requests: CounterFamily::new() }
    }

    /// Locates or creates the counter for the label set and increments it
    /// by exactly one; every other label set's count is untouched.
    pub fn inc_requests(&mut self, app_labels: &AppLabels)
        requires
            old(self).wf(),
            counter_lookup(old(self)@, app_labels@) < u64::MAX,
        ensures
            final(self).wf(),
            final(self)@ =~= counters_inc(old(self)@, app_labels@),
            counter_lookup(final(self)@, app_labels@) == counter_lookup(old(self)@, app_labels@)
                + 1,
            forall|k: AppLabelsV|
                k != app_labels@ ==> counter_lookup(final(self)@, k) == counter_lookup(
                    old(self)@,
                    k,
                ),
            forall|k: AppLabelsV|
                counters_contain(final(self)@, k) <==> (counters_contain(old(self)@, k) || k
                    == app_labels@),
    {
        self.requests.increment(app_labels);
    }

    /// The count recorded for the label set, zero when never observed.
    pub fn request_count(&self, app_labels: &AppLabels) -> (v: u64)
        requires
            self.wf(),
        ensures
            v as nat == counter_lookup(self@, app_labels@),
    {
        self.requests.get(app_labels)
    }

    /// The number of distinct label sets tracked so far.
    pub fn tracked_len(&self) -> (n: usize)
        ensures
            n == self@.len(),
    {
        self.requests.tracked_len()
    }

    /// The tracked label set and count at index `i`.
    pub fn entry_at(&self, i: usize) -> (r: (&AppLabels, u64))
        requires
            i < self@.len(),
        ensures
            r.0@ == self@[i as int].0,
            r.1 as nat == self@[i as int].1,
    {
        self.requests.entry_at(i)
    }

    /// Decides well-formedness: whether any label set is tracked twice.
    pub fn check_wf(&self) -> (b: bool)
        ensures
            b == self.wf(),
    {
        self.requests.check_wf()
    }
}

} // verus!
