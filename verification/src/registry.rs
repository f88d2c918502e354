//! The registry: the set of named metric families exposed together, and
//! the scrape operation that renders their current state as one document.
//!
//! A registry is populated once at startup; afterwards only the families'
//! label-keyed contents change. Scraping walks every family and renders
//! every tracked label set exactly once; it fails, rather than producing a
//! partial document, when the stored state violates a structural invariant.

use vstd::prelude::*;
use crate::labels::{AppLabels, AppLabelsV, LatencyLabels, LatencyLabelsV};
use crate::counter::{counter_lookup, counters_inc, counters_wf, CountMetrics};
use crate::histogram::{
    hists_lookup, hists_observe, hists_wf, strictly_increasing, HisgMetrics, HistogramV,
};
use crate::encode::{counter_block, hist_block, push_counter_block, push_hist_block};

verus! {

/// Why a scrape failed.
#[derive(Clone, Copy, Debug, PartialEq, Eq, Structural)]
pub enum EncodeError {
    /// The stored metric state violates a structural invariant.
    Inconsistent,
}

/// Mathematical model of one registered counter family.
pub ghost struct CounterEntryV {
    pub name: Seq<char>,
    pub help: Seq<char>,
    pub fam: Seq<(AppLabelsV, nat)>,
}

/// Mathematical model of one registered histogram family.
pub ghost struct HistEntryV {
    pub name: Seq<char>,
    pub help: Seq<char>,
    pub bounds: Seq<int>,
    pub fam: Seq<(LatencyLabelsV, HistogramV)>,
}

/// Mathematical model of a [`Registry`] value.
pub ghost struct RegistryV {
    pub counters: Seq<CounterEntryV>,
    pub histograms: Seq<HistEntryV>,
}

/// Well-formedness of a registry: every registered family is well-formed.
pub open spec fn registry_wf(r: RegistryV) -> bool {
    &&& forall|i: int| 0 <= i < r.counters.len() ==> counters_wf(#[trigger] r.counters[i].fam)
    &&& forall|i: int|
        0 <= i < r.histograms.len() ==> {
            let e = #[trigger] r.histograms[i];
            strictly_increasing(e.bounds) && e.bounds.len() < usize::MAX && hists_wf(
                e.fam,
                e.bounds,
            )
        }
}

/// The counter blocks of the first `i` registered counter families.
pub open spec fn counter_blocks(s: Seq<CounterEntryV>, i: int) -> Seq<char>
    decreases i,
{
    if i <= 0 {
        Seq::<char>::empty()
    } else {
        counter_blocks(s, i - 1) + counter_block(s[i - 1].name, s[i - 1].help, s[i - 1].fam)
    }
}

/// The histogram blocks of the first `i` registered histogram families.
pub open spec fn hist_blocks(s: Seq<HistEntryV>, i: int) -> Seq<char>
    decreases i,
{
    if i <= 0 {
        Seq::<char>::empty()
    } else {
        hist_blocks(s, i - 1) + hist_block(s[i - 1].name, s[i - 1].help, s[i - 1].fam)
    }
}

/// The whole exposition document for a registry state: every counter
/// family's block, every histogram family's block, and the terminator.
pub open spec fn spec_encode(r: RegistryV) -> Seq<char> {
    counter_blocks(r.counters, r.counters.len() as int) + hist_blocks(
        r.histograms,
        r.histograms.len() as int,
    ) + "# EOF\n"@
}

/// The set of named metric families exposed together.
pub struct Registry {
    counters: Vec<(String, String, CountMetrics)>,
    histograms: Vec<(String, String, HisgMetrics)>,
}

impl View for Registry {
    type V = RegistryV;

    closed spec fn view(&self) -> RegistryV {
        RegistryV {
            counters: self.counters@.map_values(
                |e: (String, String, CountMetrics)| CounterEntryV {
                    name: e.0@,
                    help: e.1@,
                    fam: e.2@,
                },
            ),
            histograms: self.histograms@.map_values(
                |e: (String, String, HisgMetrics)| HistEntryV {
                    name: e.0@,
                    help: e.1@,
                    bounds: e.2.spec_bounds(),
                    fam: e.2@,
                },
            ),
        }
    }
}

impl Registry {
    /// Every registered family is well-formed.
    pub open spec fn wf(&self) -> bool {
        registry_wf(self@)
    }

    /// A registry with no families.
    pub fn new() -> (r: Registry)
        ensures
            r@.counters =~= Seq::<CounterEntryV>::empty(),
            r@.histograms =~= Seq::<HistEntryV>::empty(),
            r.wf(),
    {
        let r = Registry { counters: Vec::new(), histograms: Vec::new() };
        proof {
            assert(r@.counters =~= Seq::<CounterEntryV>::empty());
            assert(r@.histograms =~= Seq::<HistEntryV>::empty());
        }
        r
    }

    /// Registers a counter family under a metric name and help text, and
    /// hands back its index.
    pub fn register_counter(&mut self, name: String, help: String, metrics: CountMetrics) -> (idx:
        usize)
        ensures
            final(self)@.counters =~= old(self)@.counters.push(
                CounterEntryV { name: name@, help: help@, fam: metrics@ },
            ),
            final(self)@.histograms == old(self)@.histograms,
            idx == old(self)@.counters.len(),
            registry_wf(old(self)@) && counters_wf(metrics@) ==> registry_wf(final(self)@),
    {
        let idx = self.counters.len();
        self.counters.push((name, help, metrics));
        proof {
            assert(self@.counters =~= old(self)@.counters.push(
                CounterEntryV { name: name@, help: help@, fam: metrics@ },
            ));
            assert(self@.histograms =~= old(self)@.histograms);
        }
        idx
    }

    /// Registers a histogram family under a metric name and help text, and
    /// hands back its index.
    pub fn register_histogram(&mut self, name: String, help: String, metrics: HisgMetrics) -> (idx:
        usize)
        ensures
            final(self)@.histograms =~= old(self)@.histograms.push(
                HistEntryV {
                    name: name@,
                    help: help@,
                    bounds: metrics.spec_bounds(),
                    fam: metrics@,
                },
            ),
            final(self)@.counters == old(self)@.counters,
            idx == old(self)@.histograms.len(),
            registry_wf(old(self)@) && metrics.wf() ==> registry_wf(final(self)@),
    {
        let idx = self.histograms.len();
        self.histograms.push((name, help, metrics));
        proof {
            assert(self@.histograms =~= old(self)@.histograms.push(
                HistEntryV {
                    name: name@,
                    help: help@,
                    bounds: metrics.spec_bounds(),
                    fam: metrics@,
                },
            ));
            assert(self@.counters =~= old(self)@.counters);
        }
        idx
    }

    /// Routes one increment to the counter family at index `family`.
    pub fn inc_requests(&mut self, family: usize, app_labels: &AppLabels)
        requires
            family < old(self)@.counters.len(),
            counters_wf(old(self)@.counters[family as int].fam),
            counter_lookup(old(self)@.counters[family as int].fam, app_labels@) < u64::MAX,
        ensures
            final(self)@.counters =~= old(self)@.counters.update(
                family as int,
                CounterEntryV {
                    name: old(self)@.counters[family as int].name,
                    help: old(self)@.counters[family as int].help,
                    fam: counters_inc(
                        old(self)@.counters[family as int].fam,
                        app_labels@,
                    ),
                },
            ),
            final(self)@.histograms == old(self)@.histograms,
            registry_wf(old(self)@) ==> registry_wf(final(self)@),
    {
        let m = &mut self.counters[family].2;
        m.inc_requests(app_labels);
        proof {
            assert(self@.counters =~= old(self)@.counters.update(
                family as int,
                CounterEntryV {
                    name: old(self)@.counters[family as int].name,
                    help: old(self)@.counters[family as int].help,
                    fam: counters_inc(old(self)@.counters[family as int].fam, app_labels@),
                },
            ));
            assert(self@.histograms =~= old(self)@.histograms);
        }
    }

    /// Routes one duration observation to the histogram family at index
    /// `family`.
    pub fn observe_latency(&mut self, family: usize, ll: &LatencyLabels, d: i64)
        requires
            family < old(self)@.histograms.len(),
            strictly_increasing(old(self)@.histograms[family as int].bounds),
            old(self)@.histograms[family as int].bounds.len() < usize::MAX,
            hists_wf(
                old(self)@.histograms[family as int].fam,
                old(self)@.histograms[family as int].bounds,
            ),
            hists_lookup(
                old(self)@.histograms[family as int].fam,
                ll@,
                old(self)@.histograms[family as int].bounds,
            ).count < u64::MAX,
        ensures
            final(self)@.histograms =~= old(self)@.histograms.update(
                family as int,
                HistEntryV {
                    name: old(self)@.histograms[family as int].name,
                    help: old(self)@.histograms[family as int].help,
                    bounds: old(self)@.histograms[family as int].bounds,
                    fam: hists_observe(
                        old(self)@.histograms[family as int].fam,
                        ll@,
                        old(self)@.histograms[family as int].bounds,
                        d as int,
                    ),
                },
            ),
            final(self)@.counters == old(self)@.counters,
            registry_wf(old(self)@) ==> registry_wf(final(self)@),
    {
        let m = &mut self.histograms[family].2;
        m.hisg_request(ll, d);
        proof {
            assert(self@.histograms =~= old(self)@.histograms.update(
                family as int,
                HistEntryV {
                    name: old(self)@.histograms[family as int].name,
                    help: old(self)@.histograms[family as int].help,
                    bounds: old(self)@.histograms[family as int].bounds,
                    fam: hists_observe(
                        old(self)@.histograms[family as int].fam,
                        ll@,
                        old(self)@.histograms[family as int].bounds,
                        d as int,
                    ),
                },
            ));
            assert(self@.counters =~= old(self)@.counters);
        }
    }

    /// The count recorded in counter family `family` for the label set.
    pub fn counter_value(&self, family: usize, app_labels: &AppLabels) -> (v: u64)
        requires
            family < self@.counters.len(),
            counters_wf(self@.counters[family as int].fam),
        ensures
            v as nat == counter_lookup(self@.counters[family as int].fam, app_labels@),
    {
        self.counters[family].2.request_count(app_labels)
    }

    /// The number of observations recorded in histogram family `family`
    /// for the label set.
    pub fn latency_count(&self, family: usize, ll: &LatencyLabels) -> (c: u64)
        requires
            family < self@.histograms.len(),
            strictly_increasing(self@.histograms[family as int].bounds),
            self@.histograms[family as int].bounds.len() < usize::MAX,
            hists_wf(
                self@.histograms[family as int].fam,
                self@.histograms[family as int].bounds,
            ),
        ensures
            c as nat == hists_lookup(
                self@.histograms[family as int].fam,
                ll@,
                self@.histograms[family as int].bounds,
            ).count,
    {
        self.histograms[family].2.latency_count(ll)
    }

    /// The number of registered counter families.
    pub fn counter_families(&self) -> (n: usize)
        ensures
            n == self@.counters.len(),
    {
        self.counters.len()
    }

    /// The number of registered histogram families.
    pub fn histogram_families(&self) -> (n: usize)
        ensures
            n == self@.histograms.len(),
    {
        self.histograms.len()
    }

    /// Decides whether every registered family is well-formed.
    pub fn check_wf(&self) -> (b: bool)
        ensures
            b == registry_wf(self@),
    {
        let n = self.counters.len();
        for i in 0..n
            invariant
                n == self@.counters.len(),
                forall|j: int| 0 <= j < i ==> counters_wf(#[trigger] self@.counters[j].fam),
        {
            let ok = self.counters[i].2.check_wf();
            proof {
                assert(self@.counters[i as int].fam == self.counters@[i as int].2@);
            }
            if !ok {
                return false;
            }
        }
        let m = self.histograms.len();
        for i in 0..m
            invariant
                m == self@.histograms.len(),
                forall|j: int| 0 <= j < n as int ==> counters_wf(#[trigger] self@.counters[j].fam),
                n == self@.counters.len(),
                forall|j: int|
                    0 <= j < i ==> strictly_increasing(#[trigger] self@.histograms[j].bounds)
                        && self@.histograms[j].bounds.len() < usize::MAX && hists_wf(
                        self@.histograms[j].fam,
                        self@.histograms[j].bounds,
                    ),
        {
            let ok = self.histograms[i].2.check_wf();
            proof {
                assert(self@.histograms[i as int].fam == self.histograms@[i as int].2@);
                assert(self@.histograms[i as int].bounds == self.histograms@[
                    i as int
                ].2.spec_bounds());
            }
            if !ok {
                return false;
            }
        }
        true
    }

    /// Renders the current state of every registered family as one text
    /// document, or fails when the stored state is inconsistent.
    pub fn encode(&self) -> (r: Result<String, EncodeError>)
        ensures
            r is Ok <==> registry_wf(self@),
            match r {
                Ok(s) => s@ == spec_encode(self@),
                Err(e) => e == EncodeError::Inconsistent,
            },
    {
        if !self.check_wf() {
            return Err(EncodeError::Inconsistent);
        }
        let mut out = String::new();
        let n = self.counters.len();
        for i in 0..n
            invariant
                n == self@.counters.len(),
                out@ == counter_blocks(self@.counters, i as int),
        {
            let e = &self.counters[i];
            proof {
                assert(self@.counters[i as int] == (CounterEntryV {
                    name: e.0@,
                    help: e.1@,
                    fam: e.2@,
                }));
            }
            push_counter_block(&mut out, e.0.as_str(), e.1.as_str(), &e.2);
            proof {
                assert(out@ =~= counter_blocks(self@.counters, i + 1));
            }
        }
        let ghost cpart = counter_blocks(self@.counters, self@.counters.len() as int);
        let m = self.histograms.len();
        for i in 0..m
            invariant
                m == self@.histograms.len(),
                registry_wf(self@),
                cpart == counter_blocks(self@.counters, self@.counters.len() as int),
                out@ == cpart + hist_blocks(self@.histograms, i as int),
        {
            let e = &self.histograms[i];
            proof {
                assert(self@.histograms[i as int] == (HistEntryV {
                    name: e.0@,
                    help: e.1@,
                    bounds: e.2.spec_bounds(),
                    fam: e.2@,
                }));
            }
            push_hist_block(&mut out, e.0.as_str(), e.1.as_str(), &e.2);
            proof {
                assert(out@ =~= cpart + hist_blocks(self@.histograms, i + 1));
            }
        }
        out.append("# EOF\n");
        proof {
            assert(out@ =~= spec_encode(self@));
        }
        Ok(out)
    }
}

/// The shared application state: the one registry every request handler
/// reports into and every scrape reads from.
pub struct AppState {
    pub registry: Registry,
}

} // verus!
