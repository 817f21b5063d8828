//! Per-request metrics: a counter keyed by (method, route, status) and a
//! latency histogram keyed by (method, route).
//!
//! Labels carry the route template, never the resolved path, so the label
//! set stays bounded. Durations are whole nanoseconds; the fixed bucket
//! boundaries mirror a 5ms-to-10s ladder, with one overflow bucket above
//! the largest boundary. The registry is append-only: every recorded
//! request raises exactly one counter cell, one histogram bucket, the
//! histogram's observation count and its duration sum, and nothing is ever
//! reset. The well-formedness invariant keeps the counter's sum over all
//! labels and the histogram's total observation count both equal to the
//! number of requests recorded so far.

use vstd::prelude::*;
use vstd::string::StringExecFns;

verus! {

/// An HTTP method label.
#[derive(Clone, Copy, Debug, PartialEq, Eq, Structural)]
pub enum Method {
    Get,
    Post,
    Put,
    Delete,
}

/// A route-template label: the registered pattern, not the resolved path,
/// so one label covers every id under `ItemById`.
#[derive(Clone, Copy, Debug, PartialEq, Eq, Structural)]
pub enum Route {
    Health,
    Metrics,
    Items,
    ItemById,
}

/// The method label a request's method name resolves to; a name outside the
/// four the service routes is not instrumented.
pub fn method_of_name(name: &str) -> (r: Option<Method>)
    ensures
        r == Some(Method::Get) <==> name@ == "GET"@,
        r == Some(Method::Post) <==> name@ == "POST"@,
        r == Some(Method::Put) <==> name@ == "PUT"@,
        r == Some(Method::Delete) <==> name@ == "DELETE"@,
{
    proof {
        reveal_strlit("GET");
        reveal_strlit("POST");
        reveal_strlit("PUT");
        reveal_strlit("DELETE");
        assert("GET"@.len() == 3);
        assert("POST"@.len() == 4);
        assert("PUT"@.len() == 3);
        assert("DELETE"@.len() == 6);
        assert("GET"@[0] == 'G');
        assert("PUT"@[0] == 'P');
        assert("GET"@ != "PUT"@);
    }
    let n = String::from_str(name);
    if n == String::from_str("GET") {
        Some(Method::Get)
    } else if n == String::from_str("POST") {
        Some(Method::Post)
    } else if n == String::from_str("PUT") {
        Some(Method::Put)
    } else if n == String::from_str("DELETE") {
        Some(Method::Delete)
    } else {
        None
    }
}

/// The route label a matched route template resolves to. Only the
/// registered templates are instrumented, and the template stands for every
/// path it matches, so the label set stays bounded.
pub fn route_of_pattern(pattern: &str) -> (r: Option<Route>)
    ensures
        r == Some(Route::Health) <==> pattern@ == "/health"@,
        r == Some(Route::Metrics) <==> pattern@ == "/metrics"@,
        r == Some(Route::Items) <==> pattern@ == "/items"@,
        r == Some(Route::ItemById) <==> pattern@ == "/items/{id}"@,
{
    proof {
        reveal_strlit("/health");
        reveal_strlit("/metrics");
        reveal_strlit("/items");
        reveal_strlit("/items/{id}");
        assert("/health"@.len() == 7);
        assert("/metrics"@.len() == 8);
        assert("/items"@.len() == 6);
        assert("/items/{id}"@.len() == 11);
    }
    let p = String::from_str(pattern);
    if p == String::from_str("/health") {
        Some(Route::Health)
    } else if p == String::from_str("/metrics") {
        Some(Route::Metrics)
    } else if p == String::from_str("/items") {
        Some(Route::Items)
    } else if p == String::from_str("/items/{id}") {
        Some(Route::ItemById)
    } else {
        None
    }
}

/// One cell of the request counter: how many requests were answered with
/// `status` on `route` via `method`.
#[derive(Clone, Copy, Debug, PartialEq, Eq, Structural)]
pub struct CounterEntry {
    pub method: Method,
    pub route: Route,
    pub status: u16,
    pub count: u64,
}

/// How many finite latency buckets a histogram series has; one overflow
/// bucket above the largest boundary brings a series to `BUCKET_COUNT`
/// cells in all.
pub const FINITE_BUCKETS: usize = 11;

/// The number of bucket cells a histogram series holds.
pub const BUCKET_COUNT: usize = 12;

/// One latency series: per-bucket observation counts for one
/// (method, route) pair, their total, and the summed duration.
pub struct HistogramEntry {
    pub method: Method,
    pub route: Route,
    pub bucket_counts: Vec<u64>,
    pub count: u64,
    pub sum_nanos: u128,
}

/// The mathematical value of a [`HistogramEntry`].
pub ghost struct HistogramModel {
    pub method: Method,
    pub route: Route,
    pub bucket_counts: Seq<u64>,
    pub count: u64,
    pub sum_nanos: u128,
}

impl View for HistogramEntry {
    type V = HistogramModel;

    open spec fn view(&self) -> HistogramModel {
        HistogramModel {
            method: self.method,
            route: self.route,
            bucket_counts: self.bucket_counts@,
            count: self.count,
            sum_nanos: self.sum_nanos,
        }
    }
}

/// The bucket a duration of `nanos` nanoseconds falls in: the first bucket
/// whose upper boundary (inclusive) is not below it, on the ladder
/// 5ms, 10ms, 25ms, 50ms, 100ms, 250ms, 500ms, 1s, 2.5s, 5s, 10s, with the
/// overflow bucket above 10s.
pub open spec fn spec_bucket_index(nanos: u64) -> int {
    if nanos <= 5_000_000 {
        0
    } else if nanos <= 10_000_000 {
        1
    } else if nanos <= 25_000_000 {
        2
    } else if nanos <= 50_000_000 {
        3
    } else if nanos <= 100_000_000 {
        4
    } else if nanos <= 250_000_000 {
        5
    } else if nanos <= 500_000_000 {
        6
    } else if nanos <= 1_000_000_000 {
        7
    } else if nanos <= 2_500_000_000 {
        8
    } else if nanos <= 5_000_000_000 {
        9
    } else if nanos <= 10_000_000_000 {
        10
    } else {
        11
    }
}

/// The bucket a duration falls in; see [`spec_bucket_index`].
pub fn bucket_index(nanos: u64) -> (i: usize)
    ensures
        i == spec_bucket_index(nanos),
        i < BUCKET_COUNT,
{
    if nanos <= 5_000_000 {
        0
    } else if nanos <= 10_000_000 {
        1
    } else if nanos <= 25_000_000 {
        2
    } else if nanos <= 50_000_000 {
        3
    } else if nanos <= 100_000_000 {
        4
    } else if nanos <= 250_000_000 {
        5
    } else if nanos <= 500_000_000 {
        6
    } else if nanos <= 1_000_000_000 {
        7
    } else if nanos <= 2_500_000_000 {
        8
    } else if nanos <= 5_000_000_000 {
        9
    } else if nanos <= 10_000_000_000 {
        10
    } else {
        11
    }
}

/// The sum of a sequence of 64-bit counts, as an unbounded natural.
pub open spec fn sum64(s: Seq<u64>) -> nat
    decreases s.len(),
{
    if s.len() == 0 {
        0
    } else {
        sum64(s.drop_last()) + s.last() as nat
    }
}

/// Every element of a sequence of counts is at most their sum.
pub proof fn lemma_sum64_le(s: Seq<u64>, i: int)
    requires
        0 <= i < s.len(),
    ensures
        s[i] <= sum64(s),
    decreases s.len(),
{
    if i == s.len() - 1 {
    } else {
        lemma_sum64_le(s.drop_last(), i);
    }
}

/// Replacing one count changes the sum by exactly the difference.
pub proof fn lemma_sum64_update(s: Seq<u64>, i: int, v: u64)
    requires
        0 <= i < s.len(),
    ensures
        sum64(s.update(i, v)) + s[i] == sum64(s) + v,
    decreases s.len(),
{
    let t = s.update(i, v);
    if i == s.len() - 1 {
        assert(t.drop_last() =~= s.drop_last());
        assert(t.last() == v);
    } else {
        lemma_sum64_update(s.drop_last(), i, v);
        assert(t.drop_last() =~= s.drop_last().update(i, v));
        assert(t.last() == s.last());
    }
}

/// Appending a count adds exactly that count to the sum.
pub proof fn lemma_sum64_push(s: Seq<u64>, v: u64)
    ensures
        sum64(s.push(v)) == sum64(s) + v,
{
    assert(s.push(v).drop_last() =~= s);
    assert(s.push(v).last() == v);
}

/// The counter cells' counts, in order.
pub open spec fn counter_counts(s: Seq<CounterEntry>) -> Seq<u64> {
    s.map_values(|e: CounterEntry| e.count)
}

/// The request counter's sum over all labels.
pub open spec fn counter_total(s: Seq<CounterEntry>) -> nat {
    sum64(counter_counts(s))
}

/// The histogram series' observation counts, in order.
pub open spec fn histogram_counts(s: Seq<HistogramModel>) -> Seq<u64> {
    s.map_values(|h: HistogramModel| h.count)
}

/// The histogram's total observation count over all series.
pub open spec fn histogram_total(s: Seq<HistogramModel>) -> nat {
    sum64(histogram_counts(s))
}

/// Whether two counter cells carry the same (method, route, status) label.
pub open spec fn counter_same_key(a: CounterEntry, b: CounterEntry) -> bool {
    a.method == b.method && a.route == b.route && a.status == b.status
}

/// Whether some counter cell carries the given label.
pub open spec fn has_counter(s: Seq<CounterEntry>, method: Method, route: Route, status: u16) -> bool {
    exists|i: int|
        0 <= i < s.len() && s[i].method == method && s[i].route == route && s[i].status == status
}

/// The index of the counter cell with the given label; meaningful only when
/// [`has_counter`] holds.
pub open spec fn counter_index(s: Seq<CounterEntry>, method: Method, route: Route, status: u16) -> int {
    choose|i: int|
        0 <= i < s.len() && s[i].method == method && s[i].route == route && s[i].status == status
}

/// The counter after one request: the labelled cell raised by one, or a
/// fresh cell at one appended when the label is new.
pub open spec fn spec_bump_counter(
    s: Seq<CounterEntry>,
    method: Method,
    route: Route,
    status: u16,
) -> Seq<CounterEntry> {
    if has_counter(s, method, route, status) {
        let i = counter_index(s, method, route, status);
        s.update(i, CounterEntry { method, route, status, count: (s[i].count + 1) as u64 })
    } else {
        s.push(CounterEntry { method, route, status, count: 1 })
    }
}

/// Whether some histogram series carries the given label.
pub open spec fn has_histogram(s: Seq<HistogramModel>, method: Method, route: Route) -> bool {
    exists|i: int| 0 <= i < s.len() && s[i].method == method && s[i].route == route
}

/// The index of the histogram series with the given label; meaningful only
/// when [`has_histogram`] holds.
pub open spec fn histogram_index(s: Seq<HistogramModel>, method: Method, route: Route) -> int {
    choose|i: int| 0 <= i < s.len() && s[i].method == method && s[i].route == route
}

/// A series after one observation: the matching bucket, the observation
/// count and the duration sum each raised.
pub open spec fn spec_observed(h: HistogramModel, nanos: u64) -> HistogramModel {
    let b = spec_bucket_index(nanos);
    HistogramModel {
        method: h.method,
        route: h.route,
        bucket_counts: h.bucket_counts.update(b, (h.bucket_counts[b] + 1) as u64),
        count: (h.count + 1) as u64,
        sum_nanos: (h.sum_nanos + nanos) as u128,
    }
}

/// A fresh series holding one observation.
pub open spec fn spec_fresh_series(method: Method, route: Route, nanos: u64) -> HistogramModel {
    HistogramModel {
        method,
        route,
        bucket_counts: Seq::new(
            BUCKET_COUNT as nat,
            |i: int| if i == spec_bucket_index(nanos) { 1u64 } else { 0u64 },
        ),
        count: 1,
        sum_nanos: nanos as u128,
    }
}

/// The histogram after one observation: the labelled series observed, or a
/// fresh series appended when the label is new.
pub open spec fn spec_observe(
    s: Seq<HistogramModel>,
    method: Method,
    route: Route,
    nanos: u64,
) -> Seq<HistogramModel> {
    if has_histogram(s, method, route) {
        let i = histogram_index(s, method, route);
        s.update(i, spec_observed(s[i], nanos))
    } else {
        s.push(spec_fresh_series(method, route, nanos))
    }
}

/// No two counter cells carry the same label.
pub open spec fn counter_keys_unique(s: Seq<CounterEntry>) -> bool {
    forall|i: int, j: int|
        0 <= i < j < s.len() ==> !counter_same_key(#[trigger] s[i], #[trigger] s[j])
}

/// No two histogram series carry the same label.
pub open spec fn histogram_keys_unique(s: Seq<HistogramModel>) -> bool {
    forall|i: int, j: int|
        0 <= i < j < s.len() ==> !(#[trigger] s[i].method == #[trigger] s[j].method
            && s[i].route == s[j].route)
}

/// A single series is well formed: the full complement of bucket cells,
/// whose counts sum to the observation count, and a duration sum no greater
/// than what that many 64-bit durations could reach.
pub open spec fn histogram_entry_wf(h: HistogramModel) -> bool {
    &&& h.bucket_counts.len() == BUCKET_COUNT
    &&& sum64(h.bucket_counts) == h.count
    &&& h.sum_nanos <= h.count * (u64::MAX as nat)
}

/// Every series of the sequence is well formed.
pub open spec fn histogram_entries_wf(s: Seq<HistogramModel>) -> bool {
    forall|i: int| 0 <= i < s.len() ==> histogram_entry_wf(#[trigger] s[i])
}

/// The mathematical values of a sequence of histogram series.
pub open spec fn models_of(s: Seq<HistogramEntry>) -> Seq<HistogramModel> {
    s.map_values(|h: HistogramEntry| h@)
}

/// The mathematical value of a [`MetricsRegistry`].
pub ghost struct RegistryModel {
    pub counters: Seq<CounterEntry>,
    pub histograms: Seq<HistogramModel>,
    pub handled: nat,
}

impl RegistryModel {
    /// Well-formedness: labels are unique on both sides, every series is
    /// internally consistent, and both the counter's sum over all labels
    /// and the histogram's total observation count equal the number of
    /// requests recorded.
    pub open spec fn wf(self) -> bool {
        &&& counter_keys_unique(self.counters)
        &&& histogram_keys_unique(self.histograms)
        &&& histogram_entries_wf(self.histograms)
        &&& counter_total(self.counters) == self.handled
        &&& histogram_total(self.histograms) == self.handled
    }
}

/// The process-wide metrics state: request counter cells, latency series,
/// and (as a ghost quantity) how many requests have been recorded.
pub struct MetricsRegistry {
    counters: Vec<CounterEntry>,
    histograms: Vec<HistogramEntry>,
    handled: Ghost<nat>,
}

impl View for MetricsRegistry {
    type V = RegistryModel;

    closed spec fn view(&self) -> RegistryModel {
        RegistryModel {
            counters: self.counters@,
            histograms: models_of(self.histograms@),
            handled: self.handled@,
        }
    }
}

impl MetricsRegistry {
    /// An empty registry: no labels seen, nothing recorded.
    pub fn new() -> (r: MetricsRegistry)
        ensures
            r@.wf(),
            r@.counters == Seq::<CounterEntry>::empty(),
            r@.histograms == Seq::<HistogramModel>::empty(),
            r@.handled == 0,
    {
        let r = MetricsRegistry {
            counters: Vec::new(),
            histograms: Vec::new(),
            handled: Ghost(0),
        };
        proof {
            assert(r@.histograms =~= Seq::<HistogramModel>::empty());
        }
        r
    }

    /// The counter cells, in the order their labels first appeared.
    pub fn counters(&self) -> (r: &Vec<CounterEntry>)
        ensures
            r@ == self@.counters,
    {
        &self.counters
    }

    /// The histogram series, in the order their labels first appeared.
    pub fn histograms(&self) -> (r: &Vec<HistogramEntry>)
        ensures
            models_of(r@) == self@.histograms,
    {
        &self.histograms
    }

    /// Record one completed request: raise the counter cell for its
    /// (method, route, status) label and fold its duration into the
    /// latency series for (method, route). The response itself is not
    /// touched; recording observes, never alters.
    pub fn record(&mut self, method: Method, route: Route, status: u16, duration_nanos: u64)
        requires
            old(self)@.wf(),
            old(self)@.handled < u64::MAX,
        ensures
            final(self)@.wf(),
            final(self)@.handled == old(self)@.handled + 1,
            final(self)@.counters == spec_bump_counter(
                old(self)@.counters,
                method,
                route,
                status,
            ),
            final(self)@.histograms == spec_observe(
                old(self)@.histograms,
                method,
                route,
                duration_nanos,
            ),
    {
        bump_counter(&mut self.counters, method, route, status);
        observe_histogram(&mut self.histograms, method, route, duration_nanos);
        proof {
            self.handled@ = old(self)@.handled + 1;
            assert(self@.histograms =~= spec_observe(
                old(self)@.histograms,
                method,
                route,
                duration_nanos,
            ));
        }
    }
}

/// Law: after any number of recorded requests, the request counter's sum
/// over all labels and the latency histogram's total observation count both
/// equal that number.
pub proof fn lemma_totals_match_requests(m: RegistryModel)
    requires
        m.wf(),
    ensures
        counter_total(m.counters) == m.handled,
        histogram_total(m.histograms) == m.handled,
{
}

/// Raise the counter cell for a label by one, appending a fresh cell when
/// the label is new.
#[verifier::loop_isolation(false)]
fn bump_counter(counters: &mut Vec<CounterEntry>, method: Method, route: Route, status: u16)
    requires
        counter_keys_unique(old(counters)@),
        counter_total(old(counters)@) < u64::MAX,
    ensures
        final(counters)@ == spec_bump_counter(old(counters)@, method, route, status),
        counter_keys_unique(final(counters)@),
        counter_total(final(counters)@) == counter_total(old(counters)@) + 1,
{
    let ghost s0 = old(counters)@;
    let mut i: usize = 0;
    while i < counters.len()
        invariant
            counters == old(counters),
            i <= counters.len(),
            forall|j: int|
                0 <= j < i ==> !(#[trigger] s0[j].method == method && s0[j].route == route
                    && s0[j].status == status),
        decreases counters.len() - i,
    {
        let e = counters[i];
        if e.method == method && e.route == route && e.status == status {
            proof {
                assert(has_counter(s0, method, route, status));
                let w = counter_index(s0, method, route, status);
                if w != i as int {
                    assert(!counter_same_key(s0[if w < i as int { w } else { i as int }],
                        s0[if w < i as int { i as int } else { w }]));
                }
                lemma_sum64_le(counter_counts(s0), i as int);
                assert(counter_counts(s0)[i as int] == s0[i as int].count);
            }
            counters.set(i, CounterEntry { method, route, status, count: e.count + 1 });
            proof {
                let bumped = CounterEntry { method, route, status, count: (s0[i as int].count + 1) as u64 };
                assert(counters@ =~= s0.update(i as int, bumped));
                assert(counters@ == spec_bump_counter(s0, method, route, status));
                assert(counter_counts(counters@) =~= counter_counts(s0).update(
                    i as int,
                    bumped.count,
                ));
                lemma_sum64_update(counter_counts(s0), i as int, bumped.count);
                assert forall|p: int, q: int| 0 <= p < q < counters@.len() implies !counter_same_key(
                    #[trigger] counters@[p],
                    #[trigger] counters@[q],
                ) by {
                    assert(!counter_same_key(s0[p], s0[q]));
                }
            }
            return;
        }
        i = i + 1;
    }
    proof {
        assert(!has_counter(s0, method, route, status));
    }
    counters.push(CounterEntry { method, route, status, count: 1 });
    proof {
        let fresh = CounterEntry { method, route, status, count: 1u64 };
        assert(counters@ =~= s0.push(fresh));
        assert(counter_counts(counters@) =~= counter_counts(s0).push(1u64));
        lemma_sum64_push(counter_counts(s0), 1u64);
        assert forall|p: int, q: int| 0 <= p < q < counters@.len() implies !counter_same_key(
            #[trigger] counters@[p],
            #[trigger] counters@[q],
        ) by {
            if q < s0.len() {
                assert(!counter_same_key(s0[p], s0[q]));
            }
        }
    }
}

/// The duration sum stays within what one more 64-bit duration can add.
proof fn lemma_sum_nanos_bound(count: u64, sum: u128, nanos: u64)
    requires
        sum <= count * (u64::MAX as nat),
        count < u64::MAX,
    ensures
        sum + nanos <= (count + 1) * (u64::MAX as nat),
        (count + 1) * (u64::MAX as nat) <= u128::MAX,
{
    assert((count + 1) * (u64::MAX as nat) == count * (u64::MAX as nat) + u64::MAX)
        by (nonlinear_arith);
    assert((count + 1) * (u64::MAX as nat) <= (u64::MAX as nat) * (u64::MAX as nat))
        by (nonlinear_arith)
        requires
            count + 1 <= u64::MAX,
    ;
    assert((u64::MAX as nat) * (u64::MAX as nat) <= u128::MAX) by (nonlinear_arith);
}

/// Fold one observation into the series for a label, appending a fresh
/// series when the label is new.
#[verifier::loop_isolation(false)]
fn observe_histogram(histograms: &mut Vec<HistogramEntry>, method: Method, route: Route, nanos: u64)
    requires
        histogram_keys_unique(models_of(old(histograms)@)),
        histogram_entries_wf(models_of(old(histograms)@)),
        histogram_total(models_of(old(histograms)@)) < u64::MAX,
    ensures
        models_of(final(histograms)@) == spec_observe(
            models_of(old(histograms)@),
            method,
            route,
            nanos,
        ),
        histogram_keys_unique(models_of(final(histograms)@)),
        histogram_entries_wf(models_of(final(histograms)@)),
        histogram_total(models_of(final(histograms)@)) == histogram_total(
            models_of(old(histograms)@),
        ) + 1,
{
    let ghost s0 = models_of(old(histograms)@);
    let bi = bucket_index(nanos);
    let mut i: usize = 0;
    while i < histograms.len()
        invariant
            histograms == old(histograms),
            i <= histograms.len(),
            forall|j: int|
                0 <= j < i ==> !(#[trigger] s0[j].method == method && s0[j].route == route),
        decreases histograms.len() - i,
    {
        if histograms[i].method == method && histograms[i].route == route {
            proof {
                assert(has_histogram(s0, method, route));
                let w = histogram_index(s0, method, route);
                if w != i as int {
                    assert(!(s0[if w < i as int { w } else { i as int }].method
                        == s0[if w < i as int { i as int } else { w }].method
                        && s0[if w < i as int { w } else { i as int }].route
                        == s0[if w < i as int { i as int } else { w }].route));
                }
                assert(histogram_entry_wf(s0[i as int]));
                lemma_sum64_le(histogram_counts(s0), i as int);
                assert(histogram_counts(s0)[i as int] == s0[i as int].count);
                lemma_sum64_le(s0[i as int].bucket_counts, bi as int);
                lemma_sum_nanos_bound(s0[i as int].count, s0[i as int].sum_nanos, nanos);
            }
            let em = histograms[i].method;
            let er = histograms[i].route;
            let ec = histograms[i].count;
            let es = histograms[i].sum_nanos;
            let ghost bc0 = s0[i as int].bucket_counts;
            let mut new_buckets: Vec<u64> = Vec::new();
            let mut k: usize = 0;
            while k < histograms[i].bucket_counts.len()
                invariant
                    i < histograms.len(),
                    histograms@[i as int].bucket_counts@ =~= bc0,
                    k <= bc0.len(),
                    new_buckets@ =~= bc0.subrange(0, k as int),
                decreases bc0.len() - k,
            {
                new_buckets.push(histograms[i].bucket_counts[k]);
                k = k + 1;
            }
            proof {
                assert(new_buckets@ =~= s0[i as int].bucket_counts);
            }
            let b = new_buckets[bi];
            new_buckets.set(bi, b + 1);
            let observed = HistogramEntry {
                method: em,
                route: er,
                bucket_counts: new_buckets,
                count: ec + 1,
                sum_nanos: es + nanos as u128,
            };
            histograms.set(i, observed);
            proof {
                let s1 = models_of(histograms@);
                let obm = spec_observed(s0[i as int], nanos);
                lemma_sum64_update(s0[i as int].bucket_counts, bi as int, (s0[i as int].bucket_counts[bi as int] + 1) as u64);
                assert(obm.bucket_counts =~= s0[i as int].bucket_counts.update(
                    bi as int,
                    (s0[i as int].bucket_counts[bi as int] + 1) as u64,
                ));
                assert(s1 =~= s0.update(i as int, obm));
                assert(s1 == spec_observe(s0, method, route, nanos));
                assert(histogram_counts(s1) =~= histogram_counts(s0).update(i as int, obm.count));
                lemma_sum64_update(histogram_counts(s0), i as int, obm.count);
                assert(histogram_entry_wf(obm));
                assert forall|p: int| 0 <= p < s1.len() implies histogram_entry_wf(
                    #[trigger] s1[p],
                ) by {
                    assert(histogram_entry_wf(s0[p]));
                }
                assert forall|p: int, q: int| 0 <= p < q < s1.len() implies !(#[trigger] s1[p].method
                    == #[trigger] s1[q].method && s1[p].route == s1[q].route) by {
                    assert(!(s0[p].method == s0[q].method && s0[p].route == s0[q].route));
                }
            }
            return;
        }
        i = i + 1;
    }
    proof {
        assert(!has_histogram(s0, method, route));
    }
    let mut buckets: Vec<u64> = Vec::new();
    let mut k: usize = 0;
    while k < BUCKET_COUNT
        invariant
            k <= BUCKET_COUNT,
            buckets@ =~= Seq::new(k as nat, |j: int| 0u64),
        decreases BUCKET_COUNT - k,
    {
        buckets.push(0);
        k = k + 1;
    }
    buckets.set(bi, 1);
    let fresh = HistogramEntry {
        method,
        route,
        bucket_counts: buckets,
        count: 1,
        sum_nanos: nanos as u128,
    };
    histograms.push(fresh);
    proof {
        let s1 = models_of(histograms@);
        let fm = spec_fresh_series(method, route, nanos);
        assert(fm.bucket_counts =~= Seq::new(
            BUCKET_COUNT as nat,
            |j: int| 0u64,
        ).update(spec_bucket_index(nanos), 1u64));
        assert(s1 =~= s0.push(fm));
        assert(s1 == spec_observe(s0, method, route, nanos));
        assert(histogram_counts(s1) =~= histogram_counts(s0).push(1u64));
        lemma_sum64_push(histogram_counts(s0), 1u64);
        lemma_sum64_update(Seq::new(BUCKET_COUNT as nat, |j: int| 0u64), spec_bucket_index(nanos), 1u64);
        assert(sum64(Seq::new(BUCKET_COUNT as nat, |j: int| 0u64)) == 0) by {
            lemma_sum64_all_zero(Seq::new(BUCKET_COUNT as nat, |j: int| 0u64));
        }
        assert(histogram_entry_wf(fm));
        assert forall|p: int| 0 <= p < s1.len() implies histogram_entry_wf(#[trigger] s1[p]) by {
            if p < s0.len() {
                assert(histogram_entry_wf(s0[p]));
            }
        }
        assert forall|p: int, q: int| 0 <= p < q < s1.len() implies !(#[trigger] s1[p].method
            == #[trigger] s1[q].method && s1[p].route == s1[q].route) by {
            if q < s0.len() {
                assert(!(s0[p].method == s0[q].method && s0[p].route == s0[q].route));
            }
        }
    }
}

/// A sequence of zero counts sums to zero.
proof fn lemma_sum64_all_zero(s: Seq<u64>)
    requires
        forall|i: int| 0 <= i < s.len() ==> #[trigger] s[i] == 0,
    ensures
        sum64(s) == 0,
    decreases s.len(),
{
    if s.len() > 0 {
        lemma_sum64_all_zero(s.drop_last());
    }
}

} // verus!
