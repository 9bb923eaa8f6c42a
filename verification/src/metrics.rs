//! Latency histograms and counters.
use vstd::prelude::*;
use vstd::string::*;

use crate::num;
use crate::text;

verus! {

/// The upper bounds of the buckets in nanoseconds; the last bucket has none.
pub open spec fn threshold(i: int) -> u64 {
    if i == 0 {
        100
    } else if i == 1 {
        1_000
    } else if i == 2 {
        10_000
    } else if i == 3 {
        100_000
    } else if i == 4 {
        1_000_000
    } else if i == 5 {
        10_000_000
    } else if i == 6 {
        100_000_000
    } else if i == 7 {
        1_000_000_000
    } else if i == 8 {
        10_000_000_000
    } else {
        u64::MAX
    }
}

/// Whether a sample belongs into a bucket: it is below the bucket's bound and not below the one
/// before.
pub open spec fn in_bucket(ns: u64, i: int) -> bool {
    &&& 0 <= i < 10
    &&& i > 0 ==> ns >= threshold(i - 1)
    &&& i < 9 ==> ns < threshold(i)
}

/// The bucket of a sample.
pub open spec fn bucket_index(ns: u64) -> int {
    choose|i: int| in_bucket(ns, i)
}

/// A sample belongs into exactly one bucket.
pub proof fn one_bucket(ns: u64, i: int)
    ensures
        in_bucket(ns, i) <==> i == bucket_index(ns),
{
    assert(exists|j: int| in_bucket(ns, j)) by {
        assert(in_bucket(ns, 0) || in_bucket(ns, 1) || in_bucket(ns, 2) || in_bucket(ns, 3)
            || in_bucket(ns, 4) || in_bucket(ns, 5) || in_bucket(ns, 6) || in_bucket(ns, 7)
            || in_bucket(ns, 8) || in_bucket(ns, 9));
    }
    assert(in_bucket(ns, bucket_index(ns)));
}

/// Finds the bucket of a sample.
fn bucket_of(ns: u64) -> (r: usize)
    ensures
        r == bucket_index(ns),
        r < 10,
{
    let r: usize = if ns < 100 {
        0
    } else if ns < 1_000 {
        1
    } else if ns < 10_000 {
        2
    } else if ns < 100_000 {
        3
    } else if ns < 1_000_000 {
        4
    } else if ns < 10_000_000 {
        5
    } else if ns < 100_000_000 {
        6
    } else if ns < 1_000_000_000 {
        7
    } else if ns < 10_000_000_000 {
        8
    } else {
        9
    };
    proof {
        one_bucket(ns, r as int);
    }
    r
}

/// The upper bound of a bucket.
fn threshold_of(i: usize) -> (r: u64)
    ensures
        r == threshold(i as int),
{
    match i {
        0 => 100,
        1 => 1_000,
        2 => 10_000,
        3 => 100_000,
        4 => 1_000_000,
        5 => 10_000_000,
        6 => 100_000_000,
        7 => 1_000_000_000,
        8 => 10_000_000_000,
        _ => u64::MAX,
    }
}

/// A sum that starts over at zero after the largest 64-bit number.
pub open spec fn wrapping_sum(a: u64, b: u64) -> u64 {
    if a + b > u64::MAX {
        (a + b - u64::MAX - 1) as u64
    } else {
        (a + b) as u64
    }
}

/// Adds, starting over at zero after the largest 64-bit number.
fn wrapping_plus(a: u64, b: u64) -> (r: u64)
    ensures
        r == wrapping_sum(a, b),
{
    if b > u64::MAX - a {
        b - (u64::MAX - a) - 1
    } else {
        a + b
    }
}

/// Adds one to a counter, which starts over at zero after the largest 64-bit number.
pub fn bump(counter: &mut u64)
    ensures
        *final(counter) == wrapping_sum(*old(counter), 1),
{
    *counter = wrapping_plus(*counter, 1);
}

/// The sum of the first `n` buckets.
pub open spec fn cumulative(buckets: Seq<u64>, n: int) -> nat
    decreases n,
{
    if n <= 0 {
        0
    } else {
        cumulative(buckets, n - 1) + buckets[n - 1] as nat
    }
}

/// The contents of a [`LatencyHistogram`].
#[verifier::ext_equal]
pub struct HistogramView {
    pub name: Seq<char>,
    pub buckets: Seq<u64>,
    pub sum_ns: u64,
    pub count: u64,
    pub min_ns: u64,
    pub max_ns: u64,
}

impl HistogramView {
    /// A histogram without samples.
    pub open spec fn empty(name: Seq<char>) -> HistogramView {
        HistogramView {
            name,
            buckets: Seq::new(10, |i: int| 0u64),
            sum_ns: 0,
            count: 0,
            min_ns: u64::MAX,
            max_ns: 0,
        }
    }

    /// The histogram with one more sample.
    pub open spec fn recorded(self, ns: u64) -> HistogramView {
        let i = bucket_index(ns);
        HistogramView {
            buckets: self.buckets.update(i, wrapping_sum(self.buckets[i], 1)),
            sum_ns: wrapping_sum(self.sum_ns, ns),
            count: wrapping_sum(self.count, 1),
            min_ns: num::min(self.min_ns as int, ns as int) as u64,
            max_ns: num::max(self.max_ns as int, ns as int) as u64,
            ..self
        }
    }

    /// The histogram with more samples.
    pub open spec fn with_samples(self, samples: Seq<u64>) -> HistogramView
        decreases samples.len(),
    {
        if samples.len() == 0 {
            self
        } else {
            self.with_samples(samples.drop_last()).recorded(samples.last())
        }
    }

    /// Whether a histogram is this one with `n` more samples.
    pub open spec fn gained(self, after: HistogramView, n: nat) -> bool {
        exists|samples: Seq<u64>|
            samples.len() == n && after == #[trigger] self.with_samples(samples)
    }
}

/// A histogram has gained no samples over itself, and one after one was recorded.
pub proof fn lemma_gained(h: HistogramView)
    ensures
        h.gained(h, 0),
        forall|ns: u64| h.gained(#[trigger] h.recorded(ns), 1),
{
    assert(h.with_samples(Seq::empty()) == h);
    assert forall|ns: u64| h.gained(#[trigger] h.recorded(ns), 1) by {
        assert(seq![ns].drop_last() =~= Seq::empty());
        assert(h.with_samples(seq![ns]) == h.recorded(ns));
    }
}

/// Samples that are gained one after the other add up.
pub proof fn lemma_gained_both(
    a: HistogramView,
    b: HistogramView,
    c: HistogramView,
    n: nat,
    m: nat,
)
    requires
        a.gained(b, n),
        b.gained(c, m),
    ensures
        a.gained(c, n + m),
{
    let s = choose|s: Seq<u64>| s.len() == n && b == #[trigger] a.with_samples(s);
    let t = choose|t: Seq<u64>| t.len() == m && c == #[trigger] b.with_samples(t);
    lemma_with_samples(a, s, t);
    assert(c == a.with_samples(s + t));
}

/// Samples that are added in two parts are the samples of both.
proof fn lemma_with_samples(h: HistogramView, s: Seq<u64>, t: Seq<u64>)
    ensures
        h.with_samples(s).with_samples(t) == h.with_samples(s + t),
    decreases t.len(),
{
    if t.len() == 0 {
        assert(s + t =~= s);
    } else {
        lemma_with_samples(h, s, t.drop_last());
        assert((s + t).drop_last() =~= s + t.drop_last());
    }
}

/// Histogram of latencies in ten buckets, from below 100 ns to 10 s and more.
pub struct LatencyHistogram {
    name: &'static str,
    buckets: [u64; 10],
    sum_ns: u64,
    count: u64,
    min_ns: u64,
    max_ns: u64,
}

impl View for LatencyHistogram {
    type V = HistogramView;

    closed spec fn view(&self) -> HistogramView {
        HistogramView {
            name: self.name@,
            buckets: self.buckets@,
            sum_ns: self.sum_ns,
            count: self.count,
            min_ns: self.min_ns,
            max_ns: self.max_ns,
        }
    }
}

/// Whether a bound is the least of the buckets' upper ends below which the target number of samples
/// lies; zero where there are no samples.
pub open spec fn is_percentile(h: HistogramView, target: u64, r: u64) -> bool {
    &&& h.count == 0 ==> r == 0
    &&& h.count > 0 ==> {
        ||| r == u64::MAX && cumulative(h.buckets, 10) < target
        ||| exists|i: int|
            0 <= i < 10 && cumulative(h.buckets, i + 1) >= target && r == #[trigger] threshold(i)
                && forall|j: int| 0 <= j < i ==> #[trigger] cumulative(h.buckets, j + 1) < target
    }
}

impl LatencyHistogram {
    /// A histogram without samples.
    pub fn new(name: &'static str) -> (r: Self)
        ensures
            r@ == HistogramView::empty(name@),
    {
        let r = LatencyHistogram {
            name,
            buckets: [0u64; 10],
            sum_ns: 0,
            count: 0,
            min_ns: u64::MAX,
            max_ns: 0,
        };
        assert(r.buckets@ =~= Seq::new(10, |i: int| 0u64));
        r
    }

    /// Records a sample in nanoseconds.
    pub fn record(&mut self, ns: u64)
        ensures
            final(self)@ == old(self)@.recorded(ns),
    {
        let idx: usize = bucket_of(ns);
        self.buckets[idx] = wrapping_plus(self.buckets[idx], 1);
        self.sum_ns = wrapping_plus(self.sum_ns, ns);
        self.count = wrapping_plus(self.count, 1);
        if ns < self.min_ns {
            self.min_ns = ns;
        }
        if ns > self.max_ns {
            self.max_ns = ns;
        }
        assert(self@ =~= old(self)@.recorded(ns));
    }

    /// How many samples there are.
    pub fn count(&self) -> (r: u64)
        ensures
            r == self@.count,
    {
        self.count
    }

    /// The sum of the samples.
    pub fn sum_ns(&self) -> (r: u64)
        ensures
            r == self@.sum_ns,
    {
        self.sum_ns
    }

    /// The average sample, rounded down, or zero where there is none.
    pub fn avg_ns(&self) -> (r: u64)
        ensures
            r == (if self@.count == 0 {
                0
            } else {
                self@.sum_ns / self@.count
            }),
    {
        if self.count == 0 {
            return 0;
        }
        self.sum_ns / self.count
    }

    /// The smallest sample, or zero where there is none.
    pub fn min_ns(&self) -> (r: u64)
        ensures
            r == (if self@.min_ns == u64::MAX {
                0
            } else {
                self@.min_ns
            }),
    {
        if self.min_ns == u64::MAX {
            0
        } else {
            self.min_ns
        }
    }

    /// The largest sample, or zero where there is none.
    pub fn max_ns(&self) -> (r: u64)
        ensures
            r == self@.max_ns,
    {
        self.max_ns
    }

    /// The bound of the first bucket by which `target` samples are reached, or the largest
    /// number where no bucket reaches them or the last one does. Without samples it is zero.
    pub fn percentile(&self, target: u64) -> (r: u64)
        ensures
            is_percentile(self@, target, r),
    {
        if self.count == 0 {
            return 0;
        }
        let mut total: u128 = 0;
        let mut i: usize = 0;
        while i < 10
            invariant
                i <= 10,
                self.count > 0,
                self.buckets@.len() == 10,
                total == cumulative(self.buckets@, i as int),
                total <= i * u64::MAX,
                forall|j: int| 0 <= j < i ==> #[trigger] cumulative(self.buckets@, j + 1) < target,
            decreases 10 - i,
        {
            total = total + self.buckets[i] as u128;
            if total >= target as u128 {
                let bound: u64 = threshold_of(i);
                assert(bound == threshold(i as int));
                return bound;
            }
            i += 1;
        }
        assert(cumulative(self.buckets@, 9int + 1) < target);
        u64::MAX
    }

    /// A copy of the histogram.
    pub fn snapshot(&self) -> (r: HistogramSnapshot)
        ensures
            r.name@ == self@.name,
            r.buckets@ == self@.buckets,
            r.count == self@.count,
            r.sum_ns == self@.sum_ns,
            r.min_ns == (if self@.min_ns == u64::MAX {
                0
            } else {
                self@.min_ns
            }),
            r.max_ns == self@.max_ns,
    {
        HistogramSnapshot {
            name: self.name,
            buckets: self.buckets,
            count: self.count,
            sum_ns: self.sum_ns,
            min_ns: self.min_ns(),
            max_ns: self.max_ns,
        }
    }

    /// Removes all samples.
    pub fn reset(&mut self)
        ensures
            final(self)@ == HistogramView::empty(old(self)@.name),
    {
        self.buckets = [0u64; 10];
        self.sum_ns = 0;
        self.count = 0;
        self.min_ns = u64::MAX;
        self.max_ns = 0;
        assert(self.buckets@ =~= Seq::new(10, |i: int| 0u64));
    }
}

/// Whether the buckets together hold as many samples as were counted.
pub open spec fn balanced(h: HistogramView) -> bool {
    h.buckets.len() == 10 && cumulative(h.buckets, 10) == h.count
}

/// Recording keeps the buckets and the count in agreement, as long as the count fits.
pub proof fn recording_is_balanced(h: HistogramView, ns: u64)
    requires
        balanced(h),
        h.count < u64::MAX,
    ensures
        balanced(h.recorded(ns)),
{
    let i = bucket_index(ns);
    one_bucket(ns, i);
    lemma_cumulative_bound(h.buckets, 10, i);
    lemma_cumulative_update(h.buckets, h.recorded(ns).buckets, i, 10);
}

/// A bucket holds at most what all hold.
proof fn lemma_cumulative_bound(buckets: Seq<u64>, n: int, i: int)
    requires
        0 <= i < n,
    ensures
        buckets[i] <= cumulative(buckets, n),
    decreases n,
{
    if i < n - 1 {
        lemma_cumulative_bound(buckets, n - 1, i);
    }
}

/// Adding one to a bucket adds one to the sum.
proof fn lemma_cumulative_update(a: Seq<u64>, b: Seq<u64>, i: int, n: int)
    requires
        0 <= i,
        0 <= n,
        b[i] == a[i] + 1,
        forall|k: int| 0 <= k < n && k != i ==> #[trigger] b[k] == a[k],
    ensures
        cumulative(b, n) == cumulative(a, n) + if i < n {
            1nat
        } else {
            0nat
        },
    decreases n,
{
    if n > 0 {
        lemma_cumulative_update(a, b, i, n - 1);
    }
}

/// A copy of a histogram.
#[derive(Debug, Clone, Copy)]
pub struct HistogramSnapshot {
    pub name: &'static str,
    pub buckets: [u64; 10],
    pub count: u64,
    pub sum_ns: u64,
    pub min_ns: u64,
    pub max_ns: u64,
}

impl HistogramSnapshot {
    /// The average sample, rounded down, or zero where there is none.
    pub fn avg_ns(&self) -> (r: u64)
        ensures
            r == (if self.count == 0 {
                0
            } else {
                self.sum_ns / self.count
            }),
    {
        if self.count == 0 {
            0
        } else {
            self.sum_ns / self.count
        }
    }
}

/// A point in time of the machine's monotonic clock.
#[verifier::external_type_specification]
#[verifier::external_body]
pub struct ExInstant(std::time::Instant);

/// `std::time::Instant::now` reads the machine's monotonic clock; nothing is claimed of it.
#[verifier::external_body]
fn instant_now() -> (r: std::time::Instant) {
    std::time::Instant::now()
}

/// `std::time::Instant::elapsed`, in nanoseconds cut to 64 bits; it depends on the machine, so
/// nothing is claimed of it.
#[verifier::external_body]
fn nanos_since(start: &std::time::Instant) -> (r: u64) {
    start.elapsed().as_nanos() as u64
}

/// Measures a stage and records the time in a histogram.
pub struct StageTimer {
    start: std::time::Instant,
}

impl StageTimer {
    /// Starts measuring.
    pub fn start() -> (r: Self) {
        StageTimer { start: instant_now() }
    }

    /// The nanoseconds since the start.
    pub fn elapsed_ns(&self) -> (r: u64) {
        nanos_since(&self.start)
    }

    /// Stops measuring and records the nanoseconds since the start.
    pub fn stop(self, histogram: &mut LatencyHistogram)
        ensures
            exists|ns: u64| final(histogram)@ == #[trigger] old(histogram)@.recorded(ns),
    {
        let ns: u64 = self.elapsed_ns();
        histogram.record(ns);
    }
}

/// One histogram for each stage of the pipeline, and counters.
pub struct PipelineMetrics {
    pub feed_recv: LatencyHistogram,
    pub feed_normalize: LatencyHistogram,
    pub ring_enqueue: LatencyHistogram,
    pub strategy_compute: LatencyHistogram,
    pub risk_check: LatencyHistogram,
    pub order_submit: LatencyHistogram,
    pub order_to_ack: LatencyHistogram,
    pub order_to_fill: LatencyHistogram,
    pub event_processing: LatencyHistogram,
    pub state_hash: LatencyHistogram,
    pub total_events: u64,
    pub total_orders: u64,
    pub total_fills: u64,
    pub total_rejects: u64,
    pub sequence_gaps: u64,
}

impl PipelineMetrics {
    /// The histograms, in the order of the report.
    pub open spec fn histograms(&self) -> Seq<HistogramView> {
        seq![
            self.feed_recv@,
            self.feed_normalize@,
            self.ring_enqueue@,
            self.strategy_compute@,
            self.risk_check@,
            self.order_submit@,
            self.order_to_ack@,
            self.order_to_fill@,
            self.event_processing@,
            self.state_hash@,
        ]
    }

    /// The counters: events, orders, fills, rejects and sequence gaps.
    pub open spec fn counters(&self) -> (u64, u64, u64, u64, u64) {
        (
            self.total_events,
            self.total_orders,
            self.total_fills,
            self.total_rejects,
            self.sequence_gaps,
        )
    }

    /// Whether no stage has a sample, and all counters are zero.
    pub open spec fn is_clear(&self) -> bool {
        &&& self.histograms() == seq![
            HistogramView::empty("feed_recv"@),
            HistogramView::empty("feed_normalize"@),
            HistogramView::empty("ring_enqueue"@),
            HistogramView::empty("strategy_compute"@),
            HistogramView::empty("risk_check"@),
            HistogramView::empty("order_submit"@),
            HistogramView::empty("order_to_ack"@),
            HistogramView::empty("order_to_fill"@),
            HistogramView::empty("event_processing"@),
            HistogramView::empty("state_hash"@),
        ]
        &&& self.counters() == (0u64, 0u64, 0u64, 0u64, 0u64)
    }

    /// Metrics without samples.
    pub fn new() -> (r: Self)
        ensures
            r.is_clear(),
    {
        PipelineMetrics {
            feed_recv: LatencyHistogram::new("feed_recv"),
            feed_normalize: LatencyHistogram::new("feed_normalize"),
            ring_enqueue: LatencyHistogram::new("ring_enqueue"),
            strategy_compute: LatencyHistogram::new("strategy_compute"),
            risk_check: LatencyHistogram::new("risk_check"),
            order_submit: LatencyHistogram::new("order_submit"),
            order_to_ack: LatencyHistogram::new("order_to_ack"),
            order_to_fill: LatencyHistogram::new("order_to_fill"),
            event_processing: LatencyHistogram::new("event_processing"),
            state_hash: LatencyHistogram::new("state_hash"),
            total_events: 0,
            total_orders: 0,
            total_fills: 0,
            total_rejects: 0,
            sequence_gaps: 0,
        }
    }

    /// Copies of the histograms, in the order of the report.
    pub fn snapshots(&self) -> (r: Vec<HistogramSnapshot>)
        ensures
            r@.len() == 10,
            forall|i: int|
                0 <= i < 10 ==> {
                    let s = #[trigger] r@[i];
                    let h = self.histograms()[i];
                    &&& s.name@ == h.name
                    &&& s.buckets@ == h.buckets
                    &&& s.count == h.count
                    &&& s.sum_ns == h.sum_ns
                    &&& s.min_ns == (if h.min_ns == u64::MAX {
                        0
                    } else {
                        h.min_ns
                    })
                    &&& s.max_ns == h.max_ns
                },
    {
        let mut out: Vec<HistogramSnapshot> = Vec::new();
        out.push(self.feed_recv.snapshot());
        out.push(self.feed_normalize.snapshot());
        out.push(self.ring_enqueue.snapshot());
        out.push(self.strategy_compute.snapshot());
        out.push(self.risk_check.snapshot());
        out.push(self.order_submit.snapshot());
        out.push(self.order_to_ack.snapshot());
        out.push(self.order_to_fill.snapshot());
        out.push(self.event_processing.snapshot());
        out.push(self.state_hash.snapshot());
        out
    }

    /// A report: the counters, then a section for each stage that has samples. The fractional
    /// numbers of each stage are given, in the order of [`PipelineMetrics::snapshots`].
    pub fn report(&self, stages: &Vec<StageDecimals>) -> (r: String)
        requires
            stages@.len() == 10,
            forall|i: int| 0 <= i < 10 ==> (#[trigger] stages@[i]).shares@.len() == 10,
        ensures
            r@ == report_head(self.counters()) + report_body(
                self.histograms(),
                stages.deep_view(),
                10,
            ),
    {
        let mut report = String::new();
        report.append("═══ ATOMIC MESH METRICS ═══\n");
        report.append("  events: ");
        text::push_u64(&mut report, self.total_events);
        report.append("  orders: ");
        text::push_u64(&mut report, self.total_orders);
        report.append("  fills: ");
        text::push_u64(&mut report, self.total_fills);
        report.append("  rejects: ");
        text::push_u64(&mut report, self.total_rejects);
        report.append("  seq_gaps: ");
        text::push_u64(&mut report, self.sequence_gaps);
        report.append("\n");
        assert(report@ =~= report_head(self.counters()));
        let snapshots = self.snapshots();
        let ghost head = report_head(self.counters());
        let ghost decimals = stages.deep_view();
        let mut i: usize = 0;
        assert(report@ =~= head + report_body(self.histograms(), decimals, 0));
        while i < 10
            invariant
                i <= 10,
                stages@.len() == 10,
                forall|k: int| 0 <= k < 10 ==> (#[trigger] stages@[k]).shares@.len() == 10,
                decimals == stages.deep_view(),
                snapshots@.len() == 10,
                forall|k: int|
                    0 <= k < 10 ==> {
                        let s = #[trigger] snapshots@[k];
                        let h = self.histograms()[k];
                        s.name@ == h.name && s.buckets@ == h.buckets && s.count == h.count
                    },
                report@ == head + report_body(self.histograms(), decimals, i as int),
            decreases 10 - i,
        {
            let snapshot = &snapshots[i];
            if snapshot.count > 0 {
                push_section(&mut report, snapshot, &stages[i]);
            }
            assert(decimals[i as int] == stages@[i as int].deep_view());
            assert(report@ =~= head + report_body(self.histograms(), decimals, i + 1));
            i += 1;
        }
        report
    }

    /// Removes all samples and sets all counters to zero.
    pub fn reset(&mut self)
        ensures
            final(self).counters() == (0u64, 0u64, 0u64, 0u64, 0u64),
            final(self).histograms() == old(self).histograms().map_values(
                |h: HistogramView| HistogramView::empty(h.name),
            ),
    {
        self.feed_recv.reset();
        self.feed_normalize.reset();
        self.ring_enqueue.reset();
        self.strategy_compute.reset();
        self.risk_check.reset();
        self.order_submit.reset();
        self.order_to_ack.reset();
        self.order_to_fill.reset();
        self.event_processing.reset();
        self.state_hash.reset();
        self.total_events = 0;
        self.total_orders = 0;
        self.total_fills = 0;
        self.total_rejects = 0;
        self.sequence_gaps = 0;
        assert(self.histograms() =~= old(self).histograms().map_values(
            |h: HistogramView| HistogramView::empty(h.name),
        ));
    }
}

/// The title and the counters of a report.
pub open spec fn report_head(counters: (u64, u64, u64, u64, u64)) -> Seq<char> {
    "═══ ATOMIC MESH METRICS ═══\n"@ + "  events: "@ + text::decimal(counters.0 as nat)
        + "  orders: "@ + text::decimal(counters.1 as nat) + "  fills: "@ + text::decimal(
        counters.2 as nat,
    ) + "  rejects: "@ + text::decimal(counters.3 as nat) + "  seq_gaps: "@ + text::decimal(
        counters.4 as nat,
    ) + "\n"@
}

/// The fractional numbers of a stage's section: its average, smallest and largest sample with
/// their units, and the share of each bucket in percent.
#[derive(Debug)]
pub struct StageDecimals {
    pub avg: String,
    pub min: String,
    pub max: String,
    pub shares: Vec<String>,
}

/// The contents of a [`StageDecimals`].
pub struct StageDecimalsView {
    pub avg: Seq<char>,
    pub min: Seq<char>,
    pub max: Seq<char>,
    pub shares: Seq<Seq<char>>,
}

impl DeepView for StageDecimals {
    type V = StageDecimalsView;

    open spec fn deep_view(&self) -> StageDecimalsView {
        StageDecimalsView {
            avg: self.avg@,
            min: self.min@,
            max: self.max@,
            shares: self.shares.deep_view(),
        }
    }
}

/// The label of a bucket, eight characters wide.
pub open spec fn label_text(i: int) -> Seq<char> {
    if i == 0 {
        "<100ns  "@
    } else if i == 1 {
        "<1μs    "@
    } else if i == 2 {
        "<10μs   "@
    } else if i == 3 {
        "<100μs  "@
    } else if i == 4 {
        "<1ms    "@
    } else if i == 5 {
        "<10ms   "@
    } else if i == 6 {
        "<100ms  "@
    } else if i == 7 {
        "<1s     "@
    } else if i == 8 {
        "<10s    "@
    } else {
        "≥10s    "@
    }
}

/// The label of a bucket.
fn label(i: usize) -> (r: &'static str)
    ensures
        r@ == label_text(i as int),
{
    match i {
        0 => "<100ns  ",
        1 => "<1μs    ",
        2 => "<10μs   ",
        3 => "<100μs  ",
        4 => "<1ms    ",
        5 => "<10ms   ",
        6 => "<100ms  ",
        7 => "<1s     ",
        8 => "<10s    ",
        _ => "≥10s    ",
    }
}

/// A number with blanks before it, so that it is at least eight characters wide.
pub open spec fn padded(n: u64) -> Seq<char> {
    let digits = text::decimal(n as nat);
    Seq::new(num::max(8 - digits.len(), 0) as nat, |i: int| ' ') + digits
}

/// Writes a number, at least eight characters wide.
fn push_padded(out: &mut String, n: u64)
    ensures
        final(out)@ == old(out)@ + padded(n),
{
    let mut digits = String::new();
    text::push_u64(&mut digits, n);
    assert(digits@ =~= text::decimal(n as nat));
    let ghost before = out@;
    let mut width: usize = digits.as_str().unicode_len();
    let ghost len = width as int;
    while width < 8
        invariant
            width >= len,
            len >= 8 ==> width == len,
            len < 8 ==> width <= 8,
            out@ == before + Seq::new((width - len) as nat, |i: int| ' '),
        decreases 8 - width,
    {
        out.append(" ");
        proof {
            reveal_strlit(" ");
        }
        assert(out@ =~= before + Seq::new((width + 1 - len) as nat, |i: int| ' '));
        width += 1;
    }
    out.append(digits.as_str());
    assert(out@ =~= before + padded(n));
}

/// The lines of the first `n` buckets that have samples.
pub open spec fn bucket_lines(buckets: Seq<u64>, shares: Seq<Seq<char>>, n: int) -> Seq<char>
    decreases n,
{
    if n <= 0 {
        Seq::empty()
    } else if buckets[n - 1] > 0 {
        bucket_lines(buckets, shares, n - 1) + "    "@ + label_text(n - 1) + " "@ + padded(
            buckets[n - 1],
        ) + " ("@ + shares[n - 1] + "%)\n"@
    } else {
        bucket_lines(buckets, shares, n - 1)
    }
}

/// The section of a stage: its name, how many samples it has, their average, smallest and
/// largest, and a line for each bucket that has samples.
pub open spec fn section(h: HistogramView, decimals: StageDecimalsView) -> Seq<char> {
    "  "@ + h.name + " (n="@ + text::decimal(h.count as nat) + ", avg="@ + decimals.avg
        + ", min="@ + decimals.min + ", max="@ + decimals.max + " ns)\n"@ + bucket_lines(
        h.buckets,
        decimals.shares,
        10,
    )
}

/// Writes the section of a stage.
fn push_section(out: &mut String, h: &HistogramSnapshot, decimals: &StageDecimals)
    requires
        decimals.shares@.len() == 10,
    ensures
        forall|view: HistogramView|
            view.name == h.name@ && view.count == h.count && view.buckets == h.buckets@
                ==> final(out)@ == old(out)@ + #[trigger] section(view, decimals.deep_view()),
{
    let ghost before = out@;
    let ghost shares = decimals.shares.deep_view();
    out.append("  ");
    out.append(h.name);
    out.append(" (n=");
    text::push_u64(out, h.count);
    out.append(", avg=");
    out.append(decimals.avg.as_str());
    out.append(", min=");
    out.append(decimals.min.as_str());
    out.append(", max=");
    out.append(decimals.max.as_str());
    out.append(" ns)\n");
    let ghost start = out@;
    let mut i: usize = 0;
    assert(out@ =~= start + bucket_lines(h.buckets@, shares, 0));
    while i < 10
        invariant
            i <= 10,
            decimals.shares@.len() == 10,
            shares == decimals.shares.deep_view(),
            out@ == start + bucket_lines(h.buckets@, shares, i as int),
        decreases 10 - i,
    {
        if h.buckets[i] > 0 {
            out.append("    ");
            out.append(label(i));
            out.append(" ");
            push_padded(out, h.buckets[i]);
            out.append(" (");
            out.append(decimals.shares[i].as_str());
            out.append("%)\n");
        }
        assert(shares[i as int] == decimals.shares@[i as int]@);
        assert(out@ =~= start + bucket_lines(h.buckets@, shares, i + 1));
        i += 1;
    }
    assert forall|view: HistogramView|
        view.name == h.name@ && view.count == h.count && view.buckets == h.buckets@ implies out@
        == before + #[trigger] section(view, decimals.deep_view()) by {
        assert(out@ =~= before + section(view, decimals.deep_view()));
    }
}

/// The sections of those of the first `n` stages that have samples.
pub open spec fn report_body(
    histograms: Seq<HistogramView>,
    decimals: Seq<StageDecimalsView>,
    n: int,
) -> Seq<char>
    decreases n,
{
    if n <= 0 {
        Seq::empty()
    } else if histograms[n - 1].count > 0 {
        report_body(histograms, decimals, n - 1) + section(histograms[n - 1], decimals[n - 1])
    } else {
        report_body(histograms, decimals, n - 1)
    }
}

/// The buckets end at a hundred nanoseconds and at each power of ten above it, up to ten seconds.
pub proof fn buckets_grow_tenfold(i: int)
    requires
        0 <= i < 8,
    ensures
        threshold(0) == 100,
        threshold(i + 1) == 10 * threshold(i),
        threshold(8) == 10_000_000_000,
        threshold(9) == u64::MAX,
{
}

/// A percentile lies at the end of the first bucket that brings the count of samples to the target:
/// with the buckets before it there are fewer.
pub proof fn percentiles_are_least(h: HistogramView, target: u64, r: u64, i: int)
    requires
        is_percentile(h, target, r),
        h.count > 0,
        0 <= i < 10,
        cumulative(h.buckets, i + 1) >= target,
    ensures
        r <= threshold(i),
        i == 0 || cumulative(h.buckets, i) < target ==> r == threshold(i),
{
    lemma_cumulative_grows(h.buckets, i + 1, 10);
    let k = choose|k: int|
        0 <= k < 10 && cumulative(h.buckets, k + 1) >= target && r == #[trigger] threshold(k)
            && forall|j: int| 0 <= j < k ==> #[trigger] cumulative(h.buckets, j + 1) < target;
    if i < k {
        assert(cumulative(h.buckets, i + 1) < target);
    }
    if k < i && cumulative(h.buckets, i) < target {
        lemma_cumulative_grows(h.buckets, k + 1, i);
    }
}

/// Counts add up to no less with more buckets.
proof fn lemma_cumulative_grows(buckets: Seq<u64>, m: int, n: int)
    requires
        m <= n,
    ensures
        cumulative(buckets, m) <= cumulative(buckets, n),
    decreases n,
{
    if m < n && n > 0 {
        lemma_cumulative_grows(buckets, m, n - 1);
    }
}

/// A sum that does not fit starts over from zero.
pub proof fn sums_wrap(a: u64, b: u64)
    ensures
        a + b <= u64::MAX ==> wrapping_sum(a, b) == a + b,
        a + b > u64::MAX ==> wrapping_sum(a, b) + u64::MAX + 1 == a + b,
{
}

/// A sample is counted once, in the bucket that it lies in: at or above the end of the one before,
/// and below its own end unless it is the last. It adds to the sum, and the least and the greatest
/// sample are kept.
pub proof fn samples_are_counted_once(h: HistogramView, ns: u64, i: int)
    requires
        h.buckets.len() == 10,
        0 <= i < 10,
        h.count < u64::MAX,
        h.buckets[i] < u64::MAX,
        h.sum_ns + ns <= u64::MAX,
    ensures
        ({
            let after = h.recorded(ns);
            let here = (i == 0 || ns >= threshold(i - 1)) && (i == 9 || ns < threshold(i));
            &&& after.count == h.count + 1 && after.sum_ns == h.sum_ns + ns
            &&& here ==> after.buckets[i] == h.buckets[i] + 1
            &&& !here ==> after.buckets[i] == h.buckets[i]
            &&& after.min_ns <= ns && after.min_ns <= h.min_ns
            &&& after.min_ns == ns || after.min_ns == h.min_ns
            &&& after.max_ns >= ns && after.max_ns >= h.max_ns
            &&& after.max_ns == ns || after.max_ns == h.max_ns
            &&& after.name == h.name && after.buckets.len() == 10
        }),
{
    one_bucket(ns, i);
    one_bucket(ns, bucket_index(ns));
}

/// After some samples from the start the count is theirs, and the least and the greatest are among
/// them and bound all of them.
pub proof fn samples_are_summed_up(name: Seq<char>, samples: Seq<u64>, i: int)
    requires
        0 <= i < samples.len() <= u64::MAX,
    ensures
        ({
            let h = HistogramView::empty(name).with_samples(samples);
            &&& h.count == samples.len()
            &&& h.min_ns <= samples[i] <= h.max_ns
            &&& samples.contains(h.min_ns) && samples.contains(h.max_ns)
        }),
    decreases samples.len(),
{
    let front = samples.drop_last();
    let last = samples.len() - 1;
    let before = HistogramView::empty(name).with_samples(front);
    let h = HistogramView::empty(name).with_samples(samples);
    reveal_with_fuel(HistogramView::with_samples, 2);
    assert(samples[last] == samples.last());
    if last > 0 {
        samples_are_summed_up(name, front, if i < last {
            i
        } else {
            0
        });
        let a = front.index_of(before.min_ns);
        let b = front.index_of(before.max_ns);
        assert(samples[a] == before.min_ns);
        assert(samples[b] == before.max_ns);
    }
}

/// A count is written with at least eight characters: blanks, if any, and then its digits.
pub proof fn counts_are_padded(n: u64)
    ensures
        padded(n).len() >= 8,
        text::decimal(n as nat).len() >= 8 ==> padded(n) == text::decimal(n as nat),
        padded(n).len() > 8 ==> padded(n).len() == text::decimal(n as nat).len(),
        text::has_suffix(padded(n), text::decimal(n as nat)),
        forall|i: int|
            0 <= i < padded(n).len() - text::decimal(n as nat).len() ==> #[trigger] padded(n)[i]
                == ' ',
{
    let d = text::decimal(n as nat);
    let s = padded(n);
    assert(s.skip(s.len() - d.len()) =~= d);
    if d.len() >= 8 {
        assert(s =~= d);
    }
}

} // verus!
