//! Metric collection: live atomic counters, per-worker recorders with latency
//! histograms, and the aggregation of all workers into one summary.

use vstd::prelude::*;
use vstd::multiset::Multiset;
use std::sync::Arc;
use std::sync::atomic::{AtomicU64, Ordering};
use crate::error::{category_at, category_index, ErrorCategory, CATEGORY_COUNT};
use crate::hdr::{
    histogram_add, histogram_config, histogram_len, histogram_new, histogram_new_with_bounds,
    histogram_record, histogram_values, bucket_value, LatencyHistogram,
};
use crate::ratio::Ratio;
use crate::time::Duration;

verus! {

/// Lowest latency, in microseconds, that the histograms distinguish.
pub const LATENCY_LOW_US: u64 = 1;

/// Highest latency, in microseconds, that the histograms track (60 s).
pub const LATENCY_HIGH_US: u64 = 60_000_000;

/// Significant figures the histograms keep.
pub const LATENCY_SIGFIG: u8 = 3;

/// Atomic counters read during a run for live progress displays.
#[derive(Debug)]
pub struct LiveMetrics {
    pub active_connections: AtomicU64,
    pub connections_established: AtomicU64,
    pub connections_failed: AtomicU64,
    pub messages_sent: AtomicU64,
    pub messages_received: AtomicU64,
    pub bytes_sent: AtomicU64,
    pub bytes_received: AtomicU64,
    pub total_errors: AtomicU64,
}

/// A point-in-time copy of the live counters.
#[derive(Debug, Clone, Copy, PartialEq, Eq, Structural)]
pub struct LiveSnapshot {
    pub active_connections: u64,
    pub connections_established: u64,
    pub connections_failed: u64,
    pub messages_sent: u64,
    pub messages_received: u64,
    pub bytes_sent: u64,
    pub bytes_received: u64,
    pub total_errors: u64,
}

impl Default for LiveSnapshot {
    fn default() -> (s: LiveSnapshot)
        ensures
            s == (LiveSnapshot {
                active_connections: 0,
                connections_established: 0,
                connections_failed: 0,
                messages_sent: 0,
                messages_received: 0,
                bytes_sent: 0,
                bytes_received: 0,
                total_errors: 0,
            }),
    {
        LiveSnapshot {
            active_connections: 0,
            connections_established: 0,
            connections_failed: 0,
            messages_sent: 0,
            messages_received: 0,
            bytes_sent: 0,
            bytes_received: 0,
            total_errors: 0,
        }
    }
}

impl LiveMetrics {
    /// Fresh counters, all zero, shared through an `Arc`.
    pub fn new() -> Arc<Self> {
        Arc::new(LiveMetrics {
            active_connections: AtomicU64::new(0),
            connections_established: AtomicU64::new(0),
            connections_failed: AtomicU64::new(0),
            messages_sent: AtomicU64::new(0),
            messages_received: AtomicU64::new(0),
            bytes_sent: AtomicU64::new(0),
            bytes_received: AtomicU64::new(0),
            total_errors: AtomicU64::new(0),
        })
    }

    /// Reads every counter once, with relaxed ordering. Other threads update
    /// the counters concurrently, so the values read are whatever they hold
    /// at the moment of each load.
    pub fn snapshot(&self) -> LiveSnapshot {
        LiveSnapshot {
            active_connections: self.active_connections.load(Ordering::Relaxed),
            connections_established: self.connections_established.load(Ordering::Relaxed),
            connections_failed: self.connections_failed.load(Ordering::Relaxed),
            messages_sent: self.messages_sent.load(Ordering::Relaxed),
            messages_received: self.messages_received.load(Ordering::Relaxed),
            bytes_sent: self.bytes_sent.load(Ordering::Relaxed),
            bytes_received: self.bytes_received.load(Ordering::Relaxed),
            total_errors: self.total_errors.load(Ordering::Relaxed),
        }
    }
}

/// Number of failures per error category.
#[derive(Debug)]
pub struct ErrorBreakdown {
    counts: Vec<u64>,
}

impl View for ErrorBreakdown {
    type V = Seq<u64>;

    closed spec fn view(&self) -> Seq<u64> {
        self.counts@
    }
}

/// Sum of the first `k` entries of `s`.
pub open spec fn seq_sum(s: Seq<u64>, k: int) -> nat
    decreases k,
{
    if k <= 0 {
        0
    } else {
        seq_sum(s, k - 1) + s[k - 1] as nat
    }
}

impl ErrorBreakdown {
    #[verifier::type_invariant]
    closed spec fn one_count_per_category(self) -> bool {
        self.counts@.len() == CATEGORY_COUNT
    }

    /// Failures counted under `c`.
    pub open spec fn count(self, c: ErrorCategory) -> nat {
        self@[category_index(c)] as nat
    }

    /// Failures counted under all categories together.
    pub open spec fn sum(self) -> nat {
        seq_sum(self@, CATEGORY_COUNT as int)
    }

    /// The breakdown holds one count per category.
    pub fn check_shape(&self)
        ensures
            self@.len() == CATEGORY_COUNT,
    {
        proof {
            use_type_invariant(self);
        }
    }

    /// No failures in any category.
    pub fn new() -> (b: ErrorBreakdown)
        ensures
            forall|c: ErrorCategory| b.count(c) == 0,
            b@.len() == CATEGORY_COUNT,
    {
        let mut counts: Vec<u64> = Vec::new();
        let mut i: usize = 0;
        while i < CATEGORY_COUNT
            invariant
                i <= CATEGORY_COUNT,
                counts@.len() == i,
                forall|j: int| 0 <= j < i ==> counts@[j] == 0,
            decreases CATEGORY_COUNT - i,
        {
            counts.push(0);
            i = i + 1;
        }
        ErrorBreakdown { counts }
    }

    /// Failures counted under `c`, or `None` when there are none.
    pub fn get(&self, c: &ErrorCategory) -> (r: Option<u64>)
        ensures
            r == (if self.count(*c) == 0 { None } else { Some(self.count(*c) as u64) }),
    {
        proof {
            use_type_invariant(self);
        }
        let n = self.counts[c.index()];
        if n == 0 { None } else { Some(n) }
    }

    /// Counts one more failure under `c`.
    pub fn increment(&mut self, c: ErrorCategory)
        requires
            old(self).count(c) < u64::MAX,
        ensures
            final(self)@ == old(self)@.update(category_index(c), (old(self).count(c) + 1) as u64),
            final(self).count(c) == old(self).count(c) + 1,
            forall|d: ErrorCategory| d != c ==> #[trigger] final(self).count(d) == old(self).count(d),
    {
        proof {
            use_type_invariant(&*self);
            crate::error::lemma_category_index_roundtrip(c);
            assert forall|d: ErrorCategory| d != c implies category_index(d) != category_index(c) by {
                crate::error::lemma_category_index_roundtrip(d);
            }
        }
        let i = c.index();
        let n = self.counts[i];
        self.counts = vec_updated(&self.counts, i, n + 1);
    }

    /// Adds the counts of `other`, category by category.
    pub fn add_from(&mut self, other: &ErrorBreakdown)
        requires
            forall|c: ErrorCategory| old(self).count(c) + other.count(c) <= u64::MAX,
        ensures
            forall|c: ErrorCategory| #[trigger] final(self).count(c) == old(self).count(c) + other.count(c),
            final(self)@.len() == CATEGORY_COUNT,
    {
        proof {
            use_type_invariant(&*self);
            use_type_invariant(other);
        }
        let ghost start = self@;
        let mut i: usize = 0;
        while i < CATEGORY_COUNT
            invariant
                i <= CATEGORY_COUNT,
                self@.len() == CATEGORY_COUNT,
                other@.len() == CATEGORY_COUNT,
                start.len() == CATEGORY_COUNT,
                forall|c: ErrorCategory| start[category_index(c)] + other.count(c) <= u64::MAX,
                forall|j: int| 0 <= j < i ==> self@[j] == start[j] + other@[j],
                forall|j: int| i <= j < CATEGORY_COUNT ==> self@[j] == start[j],
            decreases CATEGORY_COUNT - i,
        {
            let ghost c = category_at(i as int);
            assert(category_index(c) == i);
            assert(start[category_index(c)] + other.count(c) <= u64::MAX);
            let v = self.counts[i] + other.counts[i];
            self.counts = vec_updated(&self.counts, i, v);
            i = i + 1;
        }
        assert forall|c: ErrorCategory| #[trigger] self.count(c) == start[category_index(c)] + other.count(c) by {
            crate::error::lemma_category_index_roundtrip(c);
        }
    }

    /// Whether no failure is counted at all.
    pub fn is_empty(&self) -> (b: bool)
        ensures
            b == (forall|c: ErrorCategory| self.count(c) == 0),
    {
        proof {
            use_type_invariant(self);
        }
        let mut i: usize = 0;
        while i < CATEGORY_COUNT
            invariant
                i <= CATEGORY_COUNT,
                self@.len() == CATEGORY_COUNT,
                forall|j: int| 0 <= j < i ==> self@[j] == 0,
            decreases CATEGORY_COUNT - i,
        {
            if self.counts[i] != 0 {
                assert(self.count(category_at(i as int)) != 0);
                return false;
            }
            i = i + 1;
        }
        assert forall|c: ErrorCategory| self.count(c) == 0 by {
            crate::error::lemma_category_index_roundtrip(c);
        }
        true
    }

    /// Failures over all categories.
    pub fn total(&self) -> (n: u64)
        requires
            self.sum() <= u64::MAX,
        ensures
            n == self.sum(),
    {
        proof {
            use_type_invariant(self);
        }
        let mut sum: u64 = 0;
        let mut i: usize = 0;
        while i < CATEGORY_COUNT
            invariant
                i <= CATEGORY_COUNT,
                self@.len() == CATEGORY_COUNT,
                self.sum() <= u64::MAX,
                sum == seq_sum(self@, i as int),
            decreases CATEGORY_COUNT - i,
        {
            proof {
                lemma_seq_sum_mono(self@, i + 1, CATEGORY_COUNT as int);
            }
            sum = sum + self.counts[i];
            i = i + 1;
        }
        sum
    }

    /// The categories with at least one failure and their counts, in
    /// declaration order.
    pub fn entries(&self) -> (v: Vec<(ErrorCategory, u64)>)
        ensures
            forall|k: int| 0 <= k < v@.len() ==> self.count(#[trigger] v@[k].0) == v@[k].1 && v@[k].1 > 0,
            forall|c: ErrorCategory| self.count(c) > 0 ==> exists|k: int| 0 <= k < v@.len() && #[trigger] v@[k].0 == c,
            forall|k1: int, k2: int| 0 <= k1 < k2 < v@.len() ==> category_index(v@[k1].0) < category_index(v@[k2].0),
    {
        proof {
            use_type_invariant(self);
        }
        let mut v: Vec<(ErrorCategory, u64)> = Vec::new();
        let mut i: usize = 0;
        while i < CATEGORY_COUNT
            invariant
                i <= CATEGORY_COUNT,
                self@.len() == CATEGORY_COUNT,
                forall|k: int| 0 <= k < v@.len() ==> self.count(#[trigger] v@[k].0) == v@[k].1 && v@[k].1 > 0
                    && category_index(v@[k].0) < i,
                forall|j: int| 0 <= j < i && self@[j] > 0 ==> exists|k: int| 0 <= k < v@.len() && #[trigger] v@[k].0 == category_at(j),
                forall|k1: int, k2: int| 0 <= k1 < k2 < v@.len() ==> category_index(v@[k1].0) < category_index(v@[k2].0),
            decreases CATEGORY_COUNT - i,
        {
            let n = self.counts[i];
            let ghost prev = v@;
            if n > 0 {
                let c = ErrorCategory::from_index(i);
                v.push((c, n));
                assert(v@[v@.len() - 1].0 == category_at(i as int));
                assert(self.count(c) == n);
            }
            assert forall|k: int| 0 <= k < v@.len() implies self.count(#[trigger] v@[k].0) == v@[k].1 && v@[k].1 > 0
                && category_index(v@[k].0) < i + 1 by {
                if k < prev.len() {
                    assert(v@[k] == prev[k]);
                }
            }
            assert forall|j: int| 0 <= j < i + 1 && self@[j] > 0 implies exists|k: int| 0 <= k < v@.len() && #[trigger] v@[k].0 == category_at(j) by {
                if j < i {
                    let k = choose|k: int| 0 <= k < prev.len() && #[trigger] prev[k].0 == category_at(j);
                    assert(v@[k] == prev[k]);
                } else {
                    assert(v@[v@.len() - 1].0 == category_at(j));
                }
            }
            i = i + 1;
        }
        assert forall|c: ErrorCategory| self.count(c) > 0 implies exists|k: int| 0 <= k < v@.len() && #[trigger] v@[k].0 == c by {
            crate::error::lemma_category_index_roundtrip(c);
            assert(self@[category_index(c)] > 0);
        }
        v
    }
}

impl Clone for ErrorBreakdown {
    fn clone(&self) -> (b: ErrorBreakdown)
        ensures
            b@ == self@,
    {
        proof {
            use_type_invariant(self);
        }
        ErrorBreakdown { counts: self.counts.clone() }
    }
}

/// A copy of `v` with the entry at `i` replaced by `x`.
fn vec_updated(v: &Vec<u64>, i: usize, x: u64) -> (r: Vec<u64>)
    requires
        i < v.len(),
    ensures
        r@ == v@.update(i as int, x),
{
    let mut r: Vec<u64> = Vec::new();
    let mut j: usize = 0;
    while j < v.len()
        invariant
            j <= v.len(),
            i < v.len(),
            r@ == v@.update(i as int, x).subrange(0, j as int),
        decreases v.len() - j,
    {
        if j == i {
            r.push(x);
        } else {
            r.push(v[j]);
        }
        j = j + 1;
        assert(r@ =~= v@.update(i as int, x).subrange(0, j as int));
    }
    assert(r@ =~= v@.update(i as int, x));
    r
}

/// Sums of longer prefixes are no smaller.
pub proof fn lemma_seq_sum_mono(s: Seq<u64>, a: int, b: int)
    requires
        0 <= a <= b,
    ensures
        seq_sum(s, a) <= seq_sum(s, b),
    decreases b - a,
{
    if a < b {
        lemma_seq_sum_mono(s, a, b - 1);
    }
}

/// The value a latency histogram counts `us` at: the lowest value of its
/// bucket.
pub open spec fn latency_bucket(us: u64) -> u64 {
    bucket_value(LATENCY_LOW_US, LATENCY_SIGFIG, us)
}

/// Latency, in microseconds, that a duration is recorded as: its whole
/// microseconds, clamped to the histogram range.
pub open spec fn latency_sample(nanos: nat) -> u64 {
    let us = nanos / 1000;
    if us < LATENCY_LOW_US { LATENCY_LOW_US } else if us > LATENCY_HIGH_US { LATENCY_HIGH_US } else { us as u64 }
}

/// A latency is recorded in whole microseconds: a duration of at least one
/// microsecond and at most 60 s (plus what rounds down to it) as its
/// nanoseconds divided by 1000, a shorter one as 1 µs, a longer one as 60 s.
pub proof fn lemma_latency_sample_micros(nanos: nat)
    ensures
        1000 <= nanos < 60_000_001_000 ==> latency_sample(nanos) == nanos / 1000,
        nanos < 1000 ==> latency_sample(nanos) == 1,
        nanos >= 60_000_001_000 ==> latency_sample(nanos) == 60_000_000,
{
}

/// The whole microseconds of `nanos` nanoseconds, as a `u64`.
pub open spec fn whole_micros(nanos: nat) -> u64 {
    (nanos / 1000) as u64
}

/// The histogram was made for latencies: fixed range 1 µs to 60 s, three figures.
pub open spec fn is_latency_histogram(h: LatencyHistogram) -> bool {
    histogram_config(h) == (LATENCY_LOW_US, LATENCY_HIGH_US, LATENCY_SIGFIG, false)
}

/// The latency sample for `d`, in microseconds.
pub fn latency_sample_of(d: &Duration) -> (us: u64)
    ensures
        us == latency_sample(d@),
        us == (if d@ / 1000 < 1 { 1 } else if d@ / 1000 > 60_000_000 { 60_000_000 } else { d@ / 1000 }),
{
    let m = d.as_micros();
    if m < 1 {
        1
    } else if m > 60_000_000 {
        60_000_000
    } else {
        m as u64
    }
}

/// `x` as a `u64`.
pub fn usize_as_u64(x: usize) -> (y: u64)
    ensures
        y == x,
{
    x as u64
}

/// An empty latency histogram covering 1 µs to 60 s at three significant figures.
pub fn new_latency_histogram() -> (h: LatencyHistogram)
    ensures
        is_latency_histogram(h),
        histogram_values(h) =~= Multiset::empty(),
{
    match histogram_new_with_bounds(LATENCY_LOW_US, LATENCY_HIGH_US, LATENCY_SIGFIG) {
        Ok(h) => h,
        Err(_) => {
            // new_with_bounds accepts these bounds, so this fallback is never taken
            histogram_new(LATENCY_SIGFIG).unwrap()
        },
    }
}

/// Metrics owned by one worker: latency histograms, traffic counters, error
/// counts, and a handle on the shared live counters.
pub struct WorkerMetrics {
    pub handshake_hist: LatencyHistogram,
    pub rtt_hist: LatencyHistogram,
    pub messages_sent: u64,
    pub messages_recv: u64,
    pub bytes_sent: u64,
    pub bytes_recv: u64,
    pub errors: ErrorBreakdown,
    pub live: Arc<LiveMetrics>,
}

impl WorkerMetrics {
    /// Both histograms are latency histograms.
    pub open spec fn wf(&self) -> bool {
        is_latency_histogram(self.handshake_hist) && is_latency_histogram(self.rtt_hist)
    }

    /// Fresh metrics: empty histograms, zero counters and no errors.
    pub fn new(live: Arc<LiveMetrics>) -> (m: WorkerMetrics)
        ensures
            m.wf(),
            histogram_values(m.handshake_hist) =~= Multiset::empty(),
            histogram_values(m.rtt_hist) =~= Multiset::empty(),
            m.messages_sent == 0,
            m.messages_recv == 0,
            m.bytes_sent == 0,
            m.bytes_recv == 0,
            forall|c: ErrorCategory| m.errors.count(c) == 0,
            m.live == live,
    {
        WorkerMetrics {
            handshake_hist: new_latency_histogram(),
            rtt_hist: new_latency_histogram(),
            messages_sent: 0,
            messages_recv: 0,
            bytes_sent: 0,
            bytes_recv: 0,
            errors: ErrorBreakdown::new(),
            live,
        }
    }

    /// Records a completed handshake: its latency goes into the handshake
    /// histogram, and the live counters count one more established and
    /// active connection.
    pub fn record_handshake(&mut self, duration: Duration)
        requires
            old(self).wf(),
        ensures
            final(self).wf(),
            histogram_values(old(self).handshake_hist).len() < u64::MAX ==> histogram_values(final(self).handshake_hist)
                == histogram_values(old(self).handshake_hist).insert(latency_bucket(latency_sample(duration@))),
            histogram_values(old(self).handshake_hist).len() < u64::MAX && 1000 <= duration@ < 60_000_001_000
                ==> histogram_values(final(self).handshake_hist)
                == histogram_values(old(self).handshake_hist).insert(latency_bucket(whole_micros(duration@))),
            final(self).rtt_hist == old(self).rtt_hist,
            final(self).messages_sent == old(self).messages_sent,
            final(self).messages_recv == old(self).messages_recv,
            final(self).bytes_sent == old(self).bytes_sent,
            final(self).bytes_recv == old(self).bytes_recv,
            final(self).errors == old(self).errors,
            final(self).live == old(self).live,
    {
        let micros = latency_sample_of(&duration);
        let _ = histogram_record(&mut self.handshake_hist, micros);
        self.live.connections_established.fetch_add(1, Ordering::Relaxed);
        self.live.active_connections.fetch_add(1, Ordering::Relaxed);
    }

    /// Records a failed connection attempt: one more error under `err`, and
    /// one more failed connection in the live counters.
    pub fn record_connection_failed(&mut self, err: ErrorCategory)
        requires
            old(self).errors.count(err) < u64::MAX,
        ensures
            final(self)@ == old(self)@,
            final(self).errors.count(err) == old(self).errors.count(err) + 1,
            forall|c: ErrorCategory| c != err ==> #[trigger] final(self).errors.count(c) == old(self).errors.count(c),
            final(self).handshake_hist == old(self).handshake_hist,
            final(self).rtt_hist == old(self).rtt_hist,
            final(self).live == old(self).live,
    {
        self.record_error(err);
        self.live.connections_failed.fetch_add(1, Ordering::Relaxed);
    }

    /// Records a closed connection in the live counters; nothing else changes.
    pub fn record_connection_closed(&mut self)
        ensures
            *final(self) == *old(self),
    {
        self.live.active_connections.fetch_sub(1, Ordering::Relaxed);
    }

    /// Records a sent message of `bytes` bytes.
    pub fn record_message_sent(&mut self, bytes: usize)
        requires
            old(self).messages_sent < u64::MAX,
            old(self).bytes_sent + bytes <= u64::MAX,
        ensures
            final(self).messages_sent == old(self).messages_sent + 1,
            final(self).bytes_sent == old(self).bytes_sent + bytes,
            final(self).messages_recv == old(self).messages_recv,
            final(self).bytes_recv == old(self).bytes_recv,
            final(self).handshake_hist == old(self).handshake_hist,
            final(self).rtt_hist == old(self).rtt_hist,
            final(self).errors == old(self).errors,
            final(self).live == old(self).live,
    {
        let n = usize_as_u64(bytes);
        self.messages_sent = self.messages_sent + 1;
        self.bytes_sent = self.bytes_sent + n;
        self.live.messages_sent.fetch_add(1, Ordering::Relaxed);
        self.live.bytes_sent.fetch_add(n, Ordering::Relaxed);
    }

    /// Records a received message of `bytes` bytes, and its round-trip time
    /// in the round-trip histogram when there is one.
    pub fn record_message_recv(&mut self, bytes: usize, rtt: Option<Duration>)
        requires
            old(self).wf(),
            old(self).messages_recv < u64::MAX,
            old(self).bytes_recv + bytes <= u64::MAX,
        ensures
            final(self).wf(),
            final(self).messages_recv == old(self).messages_recv + 1,
            final(self).bytes_recv == old(self).bytes_recv + bytes,
            match rtt {
                Some(d) => histogram_values(old(self).rtt_hist).len() < u64::MAX ==> histogram_values(final(self).rtt_hist)
                    == histogram_values(old(self).rtt_hist).insert(latency_bucket(latency_sample(d@))),
                None => final(self).rtt_hist == old(self).rtt_hist,
            },
            rtt matches Some(d) ==> (histogram_values(old(self).rtt_hist).len() < u64::MAX && 1000 <= d@ < 60_000_001_000
                ==> histogram_values(final(self).rtt_hist)
                == histogram_values(old(self).rtt_hist).insert(latency_bucket(whole_micros(d@)))),
            final(self).messages_sent == old(self).messages_sent,
            final(self).bytes_sent == old(self).bytes_sent,
            final(self).handshake_hist == old(self).handshake_hist,
            final(self).errors == old(self).errors,
            final(self).live == old(self).live,
    {
        let n = usize_as_u64(bytes);
        self.messages_recv = self.messages_recv + 1;
        self.bytes_recv = self.bytes_recv + n;
        if let Some(rtt_dur) = rtt {
            let micros = latency_sample_of(&rtt_dur);
            let _ = histogram_record(&mut self.rtt_hist, micros);
        }
        self.live.messages_received.fetch_add(1, Ordering::Relaxed);
        self.live.bytes_received.fetch_add(n, Ordering::Relaxed);
    }

    /// Counts one more error under `err`, locally and in the live counters.
    pub fn record_error(&mut self, err: ErrorCategory)
        requires
            old(self).errors.count(err) < u64::MAX,
        ensures
            final(self)@ == old(self)@,
            final(self).errors.count(err) == old(self).errors.count(err) + 1,
            forall|c: ErrorCategory| c != err ==> #[trigger] final(self).errors.count(c) == old(self).errors.count(c),
            final(self).handshake_hist == old(self).handshake_hist,
            final(self).rtt_hist == old(self).rtt_hist,
            final(self).live == old(self).live,
    {
        self.errors.increment(err);
        self.live.total_errors.fetch_add(1, Ordering::Relaxed);
    }
}

/// The traffic counters of a worker: `(messages sent, messages received,
/// bytes sent, bytes received)`.
impl View for WorkerMetrics {
    type V = (u64, u64, u64, u64);

    open spec fn view(&self) -> (u64, u64, u64, u64) {
        (self.messages_sent, self.messages_recv, self.bytes_sent, self.bytes_recv)
    }
}

impl Clone for WorkerMetrics {
    fn clone(&self) -> (m: WorkerMetrics)
        ensures
            m@ == self@,
            histogram_values(m.handshake_hist) == histogram_values(self.handshake_hist),
            histogram_config(m.handshake_hist) == histogram_config(self.handshake_hist),
            histogram_values(m.rtt_hist) == histogram_values(self.rtt_hist),
            histogram_config(m.rtt_hist) == histogram_config(self.rtt_hist),
            m.errors@ == self.errors@,
            m.live == self.live,
    {
        WorkerMetrics {
            handshake_hist: self.handshake_hist.clone(),
            rtt_hist: self.rtt_hist.clone(),
            messages_sent: self.messages_sent,
            messages_recv: self.messages_recv,
            bytes_sent: self.bytes_sent,
            bytes_recv: self.bytes_recv,
            errors: self.errors.clone(),
            live: Arc::clone(&self.live),
        }
    }
}

/// Summary statistics of a latency histogram, in microseconds.
///
/// The mean is given in whole microseconds, rounded toward zero; the
/// percentiles are the histogram's values at those quantiles.
#[derive(Debug, Clone, Copy, PartialEq, Eq, Structural)]
pub struct LatencyStats {
    pub count: u64,
    pub min_us: u64,
    pub mean_us: u64,
    pub max_us: u64,
    pub p50_us: u64,
    pub p75_us: u64,
    pub p90_us: u64,
    pub p95_us: u64,
    pub p99_us: u64,
    pub p999_us: u64,
    pub p9999_us: u64,
}

/// Statistics with every field zero.
pub open spec fn zero_stats() -> LatencyStats {
    LatencyStats {
        count: 0,
        min_us: 0,
        mean_us: 0,
        max_us: 0,
        p50_us: 0,
        p75_us: 0,
        p90_us: 0,
        p95_us: 0,
        p99_us: 0,
        p999_us: 0,
        p9999_us: 0,
    }
}

/// `s` summarises `h`: all zero when `h` holds no sample; otherwise the
/// count of samples with the other fields as `summarize` gives them for `h`.
pub open spec fn summarises<F: Fn(&LatencyHistogram) -> LatencyStats>(s: LatencyStats, h: LatencyHistogram, summarize: F) -> bool {
    &&& histogram_values(h).len() == 0 ==> s == zero_stats()
    &&& 0 < histogram_values(h).len() <= u64::MAX ==> exists|q: LatencyStats|
        #![trigger summarize.ensures((&h,), q)]
        summarize.ensures((&h,), q) && s == (LatencyStats { count: histogram_values(h).len() as u64, ..q })
}

/// A summary counts the samples of its histogram.
pub proof fn lemma_summary_count<F: Fn(&LatencyHistogram) -> LatencyStats>(s: LatencyStats, h: LatencyHistogram, summarize: F)
    requires
        summarises(s, h, summarize),
        histogram_values(h).len() <= u64::MAX,
    ensures
        s.count == histogram_values(h).len(),
{
    if histogram_values(h).len() > 0 {
        let q = choose|q: LatencyStats| summarize.ensures((&h,), q) && s == (LatencyStats { count: histogram_values(h).len() as u64, ..q });
    }
}

/// The statistics are in order: the percentiles rise from the minimum to
/// the maximum, and the mean lies between the extremes.
pub open spec fn stats_ordered(s: LatencyStats) -> bool {
    &&& s.min_us <= s.p50_us <= s.p75_us <= s.p90_us <= s.p95_us <= s.p99_us <= s.p999_us <= s.p9999_us <= s.max_us
    &&& s.min_us <= s.mean_us <= s.max_us
}

/// A summary is in order whenever what `summarize` gives for its histogram
/// is: the count it sets, and the zeros of an empty histogram, keep the
/// order.
pub proof fn lemma_summary_ordered<F: Fn(&LatencyHistogram) -> LatencyStats>(s: LatencyStats, h: LatencyHistogram, summarize: F)
    requires
        summarises(s, h, summarize),
        histogram_values(h).len() <= u64::MAX,
        forall|q: LatencyStats| #[trigger] summarize.ensures((&h,), q) ==> stats_ordered(q),
    ensures
        stats_ordered(s),
{
    if histogram_values(h).len() > 0 {
        let q = choose|q: LatencyStats| summarize.ensures((&h,), q) && s == (LatencyStats { count: histogram_values(h).len() as u64, ..q });
        assert(stats_ordered(q));
    }
}

impl LatencyStats {
    /// The statistics of `h`: all zero when it holds no sample; otherwise
    /// its number of samples, with the extremes, mean and percentiles as
    /// `summarize` computes them.
    pub fn from_histogram<F: Fn(&LatencyHistogram) -> LatencyStats>(h: &LatencyHistogram, summarize: &F) -> (s: LatencyStats)
        requires
            summarize.requires((h,)),
        ensures
            summarises(s, *h, *summarize),
    {
        let n = histogram_len(h);
        if n == 0 {
            return LatencyStats::empty();
        }
        let q = summarize(h);
        LatencyStats { count: n, ..q }
    }

    /// Statistics of an empty histogram: all zero.
    pub fn empty() -> (s: LatencyStats)
        ensures
            s == (LatencyStats {
                count: 0,
                min_us: 0,
                mean_us: 0,
                max_us: 0,
                p50_us: 0,
                p75_us: 0,
                p90_us: 0,
                p95_us: 0,
                p99_us: 0,
                p999_us: 0,
                p9999_us: 0,
            }),
    {
        LatencyStats {
            count: 0,
            min_us: 0,
            mean_us: 0,
            max_us: 0,
            p50_us: 0,
            p75_us: 0,
            p90_us: 0,
            p95_us: 0,
            p99_us: 0,
            p999_us: 0,
            p9999_us: 0,
        }
    }

    pub fn p50_duration(&self) -> (d: Duration)
        ensures
            d@ == self.p50_us * 1000,
    {
        Duration::from_micros(self.p50_us)
    }

    pub fn p95_duration(&self) -> (d: Duration)
        ensures
            d@ == self.p95_us * 1000,
    {
        Duration::from_micros(self.p95_us)
    }

    pub fn p99_duration(&self) -> (d: Duration)
        ensures
            d@ == self.p99_us * 1000,
    {
        Duration::from_micros(self.p99_us)
    }

    pub fn p999_duration(&self) -> (d: Duration)
        ensures
            d@ == self.p999_us * 1000,
    {
        Duration::from_micros(self.p999_us)
    }
}

/// The metrics of all workers combined, with transfer totals and rates.
pub struct AggregatedMetrics {
    pub total_connections_attempted: u64,
    pub total_connections_established: u64,
    pub total_connections_failed: u64,
    pub total_messages_sent: u64,
    pub total_messages_recv: u64,
    pub total_bytes_sent: u64,
    pub total_bytes_recv: u64,
    pub elapsed: Duration,
    /// Messages received per second.
    pub throughput_msg_per_sec: Ratio,
    /// Bytes sent and received per second.
    pub throughput_bytes_per_sec: Ratio,
    /// Errors per operation, where an operation is a sent message or an error.
    pub error_rate: Ratio,
    pub handshake_hist: LatencyHistogram,
    pub rtt_hist: LatencyHistogram,
    pub handshake_latency: LatencyStats,
    pub message_rtt: LatencyStats,
    pub error_breakdown: ErrorBreakdown,
}

/// `f` summed over the workers `ws`.
pub open spec fn sum_over(ws: Seq<WorkerMetrics>, f: spec_fn(WorkerMetrics) -> nat) -> nat
    decreases ws.len(),
{
    if ws.len() == 0 {
        0
    } else {
        sum_over(ws.drop_last(), f) + f(ws.last())
    }
}

/// Messages the workers sent.
pub open spec fn total_sent(ws: Seq<WorkerMetrics>) -> nat {
    sum_over(ws, |w: WorkerMetrics| w.messages_sent as nat)
}

/// Messages the workers received.
pub open spec fn total_recv(ws: Seq<WorkerMetrics>) -> nat {
    sum_over(ws, |w: WorkerMetrics| w.messages_recv as nat)
}

/// Bytes the workers sent.
pub open spec fn total_bytes_sent(ws: Seq<WorkerMetrics>) -> nat {
    sum_over(ws, |w: WorkerMetrics| w.bytes_sent as nat)
}

/// Bytes the workers received.
pub open spec fn total_bytes_recv(ws: Seq<WorkerMetrics>) -> nat {
    sum_over(ws, |w: WorkerMetrics| w.bytes_recv as nat)
}

/// Errors the workers counted under `c`.
pub open spec fn total_errors_in(ws: Seq<WorkerMetrics>, c: ErrorCategory) -> nat {
    sum_over(ws, |w: WorkerMetrics| w.errors.count(c))
}

/// Errors the workers counted under the first `k` categories.
pub open spec fn errors_up_to(ws: Seq<WorkerMetrics>, k: int) -> nat
    decreases k,
{
    if k <= 0 {
        0
    } else {
        errors_up_to(ws, k - 1) + total_errors_in(ws, category_at(k - 1))
    }
}

/// Errors the workers counted in all.
pub open spec fn total_errors(ws: Seq<WorkerMetrics>) -> nat {
    errors_up_to(ws, CATEGORY_COUNT as int)
}

/// All handshake samples of the workers.
pub open spec fn all_handshakes(ws: Seq<WorkerMetrics>) -> Multiset<u64>
    decreases ws.len(),
{
    if ws.len() == 0 {
        Multiset::empty()
    } else {
        all_handshakes(ws.drop_last()).add(histogram_values(ws.last().handshake_hist))
    }
}

/// All round-trip samples of the workers.
pub open spec fn all_round_trips(ws: Seq<WorkerMetrics>) -> Multiset<u64>
    decreases ws.len(),
{
    if ws.len() == 0 {
        Multiset::empty()
    } else {
        all_round_trips(ws.drop_last()).add(histogram_values(ws.last().rtt_hist))
    }
}

/// The shortest elapsed time rates are computed over: 0.1 ms.
pub const MIN_RATE_WINDOW_NANOS: u128 = 100_000;

/// `count` per second over `elapsed` (at least 0.1 ms).
pub open spec fn per_second(count: nat, elapsed: nat) -> Ratio {
    Ratio {
        num: (count * 1_000_000_000) as u128,
        den: if elapsed < MIN_RATE_WINDOW_NANOS { MIN_RATE_WINDOW_NANOS } else { elapsed as u128 },
    }
}

/// Errors per operation; zero when there was no operation.
pub open spec fn error_ratio(errors: nat, sent: nat) -> Ratio {
    if errors + sent > 0 {
        Ratio { num: errors as u128, den: (errors + sent) as u128 }
    } else {
        Ratio { num: 0, den: 1 }
    }
}

/// The byte totals add up within a `u64`, and the rate and fraction fields
/// of aggregated metrics are well formed, with numerators as large as
/// aggregation can make them.
pub open spec fn metrics_wf(m: AggregatedMetrics) -> bool {
    &&& m.total_bytes_sent + m.total_bytes_recv <= u64::MAX
    &&& m.error_rate.den > 0
    &&& m.error_rate.num <= m.error_rate.den
    &&& m.error_rate.den <= u64::MAX
    &&& m.throughput_msg_per_sec.den > 0
    &&& m.throughput_msg_per_sec.num <= u64::MAX * 1_000_000_000
    &&& m.throughput_bytes_per_sec.den > 0
    &&& m.throughput_bytes_per_sec.den * 1_048_576 <= u128::MAX
    &&& m.throughput_bytes_per_sec.num <= u64::MAX * 1_000_000_000
}

/// The error rate is a fraction of operations: never above one, and zero
/// when there were no errors.
pub proof fn lemma_error_rate_at_most_one(errors: nat, sent: nat)
    requires
        errors + sent <= u128::MAX,
    ensures
        error_ratio(errors, sent).num <= error_ratio(errors, sent).den,
        error_ratio(errors, sent).den > 0,
        errors == 0 ==> error_ratio(errors, sent).num == 0,
{
}

/// Removing worker `j` takes its part out of a sum over the workers.
proof fn lemma_sum_over_remove(ws: Seq<WorkerMetrics>, f: spec_fn(WorkerMetrics) -> nat, j: int)
    requires
        0 <= j < ws.len(),
    ensures
        sum_over(ws, f) == sum_over(ws.remove(j), f) + f(ws[j]),
    decreases ws.len(),
{
    if j == ws.len() - 1 {
        assert(ws.remove(j) =~= ws.drop_last());
    } else {
        lemma_sum_over_remove(ws.drop_last(), f, j);
        assert(ws.remove(j).drop_last() =~= ws.drop_last().remove(j));
        assert(ws.remove(j).last() == ws.last());
    }
}

/// A sum over the workers does not depend on their order.
proof fn lemma_sum_over_permutation(ws: Seq<WorkerMetrics>, p: Seq<WorkerMetrics>, f: spec_fn(WorkerMetrics) -> nat)
    requires
        ws.to_multiset() == p.to_multiset(),
    ensures
        sum_over(ws, f) == sum_over(p, f),
    decreases ws.len(),
{
    broadcast use vstd::seq_lib::group_to_multiset_ensures;
    if ws.len() == 0 {
        assert(p.to_multiset().len() == 0);
        assert(p.len() == 0);
    } else {
        let x = ws.last();
        assert(ws.drop_last().push(x) =~= ws);
        assert(ws.to_multiset().count(x) > 0);
        assert(p.contains(x));
        let j = choose|j: int| 0 <= j < p.len() && p[j] == x;
        assert(p.remove(j).to_multiset() =~= ws.drop_last().to_multiset());
        lemma_sum_over_permutation(ws.drop_last(), p.remove(j), f);
        lemma_sum_over_remove(p, f, j);
    }
}

/// The samples of worker `j` are a part of all samples.
proof fn lemma_all_remove(ws: Seq<WorkerMetrics>, j: int)
    requires
        0 <= j < ws.len(),
    ensures
        all_handshakes(ws) == all_handshakes(ws.remove(j)).add(histogram_values(ws[j].handshake_hist)),
        all_round_trips(ws) == all_round_trips(ws.remove(j)).add(histogram_values(ws[j].rtt_hist)),
    decreases ws.len(),
{
    if j == ws.len() - 1 {
        assert(ws.remove(j) =~= ws.drop_last());
    } else {
        lemma_all_remove(ws.drop_last(), j);
        assert(ws.remove(j).drop_last() =~= ws.drop_last().remove(j));
        assert(ws.remove(j).last() == ws.last());
        assert(all_handshakes(ws) =~= all_handshakes(ws.remove(j)).add(histogram_values(ws[j].handshake_hist)));
        assert(all_round_trips(ws) =~= all_round_trips(ws.remove(j)).add(histogram_values(ws[j].rtt_hist)));
    }
}

proof fn lemma_all_permutation(ws: Seq<WorkerMetrics>, p: Seq<WorkerMetrics>)
    requires
        ws.to_multiset() == p.to_multiset(),
    ensures
        all_handshakes(ws) == all_handshakes(p),
        all_round_trips(ws) == all_round_trips(p),
    decreases ws.len(),
{
    broadcast use vstd::seq_lib::group_to_multiset_ensures;
    if ws.len() == 0 {
        assert(p.to_multiset().len() == 0);
        assert(p.len() == 0);
        assert(all_handshakes(p) =~= all_handshakes(ws));
        assert(all_round_trips(p) =~= all_round_trips(ws));
    } else {
        let x = ws.last();
        assert(ws.drop_last().push(x) =~= ws);
        assert(ws.to_multiset().count(x) > 0);
        assert(p.contains(x));
        let j = choose|j: int| 0 <= j < p.len() && p[j] == x;
        assert(p.remove(j).to_multiset() =~= ws.drop_last().to_multiset());
        lemma_all_permutation(ws.drop_last(), p.remove(j));
        lemma_all_remove(p, j);
    }
}

/// Merging does not depend on the order of the workers: any reordering
/// `p` of `ws` gives the same totals of messages, bytes and errors (per
/// category and in all), and the same handshake and round-trip samples,
/// from which the merged counters, rates, error breakdown, histograms and
/// sample counts are made.
pub proof fn lemma_merge_order_free(ws: Seq<WorkerMetrics>, p: Seq<WorkerMetrics>)
    requires
        ws.to_multiset() == p.to_multiset(),
    ensures
        total_sent(p) == total_sent(ws),
        total_recv(p) == total_recv(ws),
        total_bytes_sent(p) == total_bytes_sent(ws),
        total_bytes_recv(p) == total_bytes_recv(ws),
        forall|c: ErrorCategory| #[trigger] total_errors_in(p, c) == total_errors_in(ws, c),
        total_errors(p) == total_errors(ws),
        all_handshakes(p) == all_handshakes(ws),
        all_round_trips(p) == all_round_trips(ws),
{
    lemma_sum_over_permutation(ws, p, |w: WorkerMetrics| w.messages_sent as nat);
    lemma_sum_over_permutation(ws, p, |w: WorkerMetrics| w.messages_recv as nat);
    lemma_sum_over_permutation(ws, p, |w: WorkerMetrics| w.bytes_sent as nat);
    lemma_sum_over_permutation(ws, p, |w: WorkerMetrics| w.bytes_recv as nat);
    assert forall|c: ErrorCategory| #[trigger] total_errors_in(p, c) == total_errors_in(ws, c) by {
        lemma_sum_over_permutation(ws, p, |w: WorkerMetrics| w.errors.count(c));
    }
    lemma_errors_up_to_perm(ws, p, CATEGORY_COUNT as int);
    lemma_all_permutation(ws, p);
}

proof fn lemma_errors_up_to_perm(ws: Seq<WorkerMetrics>, p: Seq<WorkerMetrics>, k: int)
    requires
        forall|c: ErrorCategory| #[trigger] total_errors_in(p, c) == total_errors_in(ws, c),
    ensures
        errors_up_to(p, k) == errors_up_to(ws, k),
    decreases k,
{
    if k > 0 {
        lemma_errors_up_to_perm(ws, p, k - 1);
        assert(total_errors_in(p, category_at(k - 1)) == total_errors_in(ws, category_at(k - 1)));
    }
}

proof fn lemma_sum_over_prefix(ws: Seq<WorkerMetrics>, f: spec_fn(WorkerMetrics) -> nat, i: int)
    requires
        0 <= i < ws.len(),
    ensures
        sum_over(ws.take(i + 1), f) == sum_over(ws.take(i), f) + f(ws[i]),
{
    assert(ws.take(i + 1).drop_last() =~= ws.take(i));
}

proof fn lemma_sum_over_le(ws: Seq<WorkerMetrics>, f: spec_fn(WorkerMetrics) -> nat, i: int)
    requires
        0 <= i <= ws.len(),
    ensures
        sum_over(ws.take(i), f) <= sum_over(ws, f),
    decreases ws.len() - i,
{
    if i < ws.len() {
        lemma_sum_over_prefix(ws, f, i);
        lemma_sum_over_le(ws, f, i + 1);
    } else {
        assert(ws.take(i) =~= ws);
    }
}

proof fn lemma_all_prefix(ws: Seq<WorkerMetrics>, i: int)
    requires
        0 <= i < ws.len(),
    ensures
        all_handshakes(ws.take(i + 1)) == all_handshakes(ws.take(i)).add(histogram_values(ws[i].handshake_hist)),
        all_round_trips(ws.take(i + 1)) == all_round_trips(ws.take(i)).add(histogram_values(ws[i].rtt_hist)),
{
    assert(ws.take(i + 1).drop_last() =~= ws.take(i));
}

proof fn lemma_all_len_le(ws: Seq<WorkerMetrics>, i: int)
    requires
        0 <= i <= ws.len(),
    ensures
        all_handshakes(ws.take(i)).len() <= all_handshakes(ws).len(),
        all_round_trips(ws.take(i)).len() <= all_round_trips(ws).len(),
    decreases ws.len() - i,
{
    if i < ws.len() {
        lemma_all_prefix(ws, i);
        lemma_all_len_le(ws, i + 1);
    } else {
        assert(ws.take(i) =~= ws);
    }
}

proof fn lemma_errors_sum(b: ErrorBreakdown, ws: Seq<WorkerMetrics>, k: int)
    requires
        0 <= k <= CATEGORY_COUNT,
        b@.len() == CATEGORY_COUNT,
        forall|c: ErrorCategory| #[trigger] b.count(c) == total_errors_in(ws, c),
    ensures
        seq_sum(b@, k) == errors_up_to(ws, k),
    decreases k,
{
    if k > 0 {
        lemma_errors_sum(b, ws, k - 1);
        let c = category_at(k - 1);
        assert(category_index(c) == k - 1);
        assert(b.count(c) == total_errors_in(ws, c));
    }
}

proof fn lemma_errors_up_to_le(ws: Seq<WorkerMetrics>, k: int)
    requires
        0 <= k <= CATEGORY_COUNT,
    ensures
        forall|j: int| 0 <= j < k ==> total_errors_in(ws, #[trigger] category_at(j)) <= errors_up_to(ws, k),
    decreases k,
{
    if k > 0 {
        lemma_errors_up_to_le(ws, k - 1);
    }
}

impl AggregatedMetrics {
    /// Combines the metrics of all workers: histograms are merged, counters
    /// and error counts summed, connection outcomes and rates derived, and
    /// each merged histogram summarised by `summarize`.
    pub fn merge<F: Fn(&LatencyHistogram) -> LatencyStats>(
        workers: Vec<WorkerMetrics>,
        elapsed: Duration,
        attempted_conns: u64,
        summarize: F,
    ) -> (res: AggregatedMetrics)
        requires
            forall|i: int| 0 <= i < workers@.len() ==> (#[trigger] workers@[i]).wf(),
            total_sent(workers@) + total_errors(workers@) <= u64::MAX,
            total_recv(workers@) <= u64::MAX,
            total_bytes_sent(workers@) + total_bytes_recv(workers@) <= u64::MAX,
            forall|h: &LatencyHistogram| summarize.requires((h,)),
        ensures
            res.total_connections_attempted == attempted_conns,
            all_handshakes(workers@).len() <= u64::MAX ==> res.total_connections_established == all_handshakes(workers@).len(),
            res.total_connections_failed == (if attempted_conns > res.total_connections_established {
                attempted_conns - res.total_connections_established
            } else {
                0
            }),
            res.total_messages_sent == total_sent(workers@),
            res.total_messages_recv == total_recv(workers@),
            res.total_bytes_sent == total_bytes_sent(workers@),
            res.total_bytes_recv == total_bytes_recv(workers@),
            res.elapsed == elapsed,
            forall|c: ErrorCategory| #[trigger] res.error_breakdown.count(c) == total_errors_in(workers@, c),
            res.error_breakdown@.len() == CATEGORY_COUNT,
            res.error_breakdown.sum() == total_errors(workers@),
            res.error_rate == error_ratio(total_errors(workers@), total_sent(workers@)),
            res.throughput_msg_per_sec == per_second(total_recv(workers@), elapsed@),
            res.throughput_bytes_per_sec == per_second(total_bytes_sent(workers@) + total_bytes_recv(workers@), elapsed@),
            is_latency_histogram(res.handshake_hist),
            is_latency_histogram(res.rtt_hist),
            all_handshakes(workers@).len() <= u64::MAX ==> histogram_values(res.handshake_hist) == all_handshakes(workers@),
            all_round_trips(workers@).len() <= u64::MAX ==> histogram_values(res.rtt_hist) == all_round_trips(workers@),
            summarises(res.handshake_latency, res.handshake_hist, summarize),
            summarises(res.message_rtt, res.rtt_hist, summarize),
            all_handshakes(workers@).len() <= u64::MAX ==> res.handshake_latency.count == all_handshakes(workers@).len(),
            all_round_trips(workers@).len() <= u64::MAX ==> res.message_rtt.count == all_round_trips(workers@).len(),
            metrics_wf(res),
    {
        let ghost ws = workers@;
        let mut combined_handshake = new_latency_histogram();
        let mut combined_rtt = new_latency_histogram();
        let mut sent: u64 = 0;
        let mut recv: u64 = 0;
        let mut bytes_sent: u64 = 0;
        let mut bytes_recv: u64 = 0;
        let mut breakdown = ErrorBreakdown::new();
        proof {
            lemma_errors_up_to_le(ws, CATEGORY_COUNT as int);
            assert(ws.take(0) =~= Seq::<WorkerMetrics>::empty());
        }
        let mut i: usize = 0;
        while i < workers.len()
            invariant
                i <= workers.len(),
                ws == workers@,
                forall|j: int| 0 <= j < workers@.len() ==> (#[trigger] workers@[j]).wf(),
                total_sent(ws) + total_errors(ws) <= u64::MAX,
                total_recv(ws) <= u64::MAX,
                total_bytes_sent(ws) + total_bytes_recv(ws) <= u64::MAX,
                forall|j: int| 0 <= j < CATEGORY_COUNT ==> total_errors_in(ws, #[trigger] category_at(j)) <= total_errors(ws),
                sent == total_sent(ws.take(i as int)),
                recv == total_recv(ws.take(i as int)),
                bytes_sent == total_bytes_sent(ws.take(i as int)),
                bytes_recv == total_bytes_recv(ws.take(i as int)),
                breakdown@.len() == CATEGORY_COUNT,
                forall|c: ErrorCategory| #[trigger] breakdown.count(c) == total_errors_in(ws.take(i as int), c),
                is_latency_histogram(combined_handshake),
                is_latency_histogram(combined_rtt),
                all_handshakes(ws).len() <= u64::MAX ==> histogram_values(combined_handshake) == all_handshakes(ws.take(i as int)),
                all_round_trips(ws).len() <= u64::MAX ==> histogram_values(combined_rtt) == all_round_trips(ws.take(i as int)),
            decreases workers.len() - i,
        {
            let w = &workers[i];
            proof {
                let ii = i as int;
                lemma_sum_over_prefix(ws, |w: WorkerMetrics| w.messages_sent as nat, ii);
                lemma_sum_over_prefix(ws, |w: WorkerMetrics| w.messages_recv as nat, ii);
                lemma_sum_over_prefix(ws, |w: WorkerMetrics| w.bytes_sent as nat, ii);
                lemma_sum_over_prefix(ws, |w: WorkerMetrics| w.bytes_recv as nat, ii);
                lemma_sum_over_le(ws, |w: WorkerMetrics| w.messages_sent as nat, ii + 1);
                lemma_sum_over_le(ws, |w: WorkerMetrics| w.messages_recv as nat, ii + 1);
                lemma_sum_over_le(ws, |w: WorkerMetrics| w.bytes_sent as nat, ii + 1);
                lemma_sum_over_le(ws, |w: WorkerMetrics| w.bytes_recv as nat, ii + 1);
                lemma_all_prefix(ws, ii);
                lemma_all_len_le(ws, ii + 1);
                assert forall|c: ErrorCategory| breakdown.count(c) + w.errors.count(c) <= u64::MAX by {
                    lemma_sum_over_prefix(ws, |w: WorkerMetrics| w.errors.count(c), ii);
                    lemma_sum_over_le(ws, |w: WorkerMetrics| w.errors.count(c), ii + 1);
                    crate::error::lemma_category_index_roundtrip(c);
                    assert(total_errors_in(ws, category_at(category_index(c))) <= total_errors(ws));
                }
            }
            let _ = histogram_add(&mut combined_handshake, &w.handshake_hist);
            let _ = histogram_add(&mut combined_rtt, &w.rtt_hist);
            sent = sent + w.messages_sent;
            recv = recv + w.messages_recv;
            bytes_sent = bytes_sent + w.bytes_sent;
            bytes_recv = bytes_recv + w.bytes_recv;
            breakdown.add_from(&w.errors);
            i = i + 1;
            proof {
                assert forall|c: ErrorCategory| #[trigger] breakdown.count(c) == total_errors_in(ws.take(i as int), c) by {
                    lemma_sum_over_prefix(ws, |w: WorkerMetrics| w.errors.count(c), (i - 1) as int);
                }
            }
        }
        proof {
            assert(ws.take(i as int) =~= ws);
            lemma_errors_sum(breakdown, ws, CATEGORY_COUNT as int);
        }
        let total_err = breakdown.total();
        let total_ops = sent + total_err;
        let error_rate = if total_ops > 0 {
            Ratio { num: total_err as u128, den: total_ops as u128 }
        } else {
            Ratio { num: 0, den: 1 }
        };
        let elapsed_nanos = elapsed.as_nanos();
        let window = if elapsed_nanos < MIN_RATE_WINDOW_NANOS { MIN_RATE_WINDOW_NANOS } else { elapsed_nanos };
        let throughput_msg_per_sec = Ratio { num: recv as u128 * 1_000_000_000, den: window };
        let throughput_bytes_per_sec = Ratio {
            num: (bytes_sent + bytes_recv) as u128 * 1_000_000_000,
            den: window,
        };
        let established = histogram_len(&combined_handshake);
        let failed = attempted_conns.saturating_sub(established);
        let handshake_latency = LatencyStats::from_histogram(&combined_handshake, &summarize);
        let message_rtt = LatencyStats::from_histogram(&combined_rtt, &summarize);
        proof {
            if all_handshakes(ws).len() <= u64::MAX {
                lemma_summary_count(handshake_latency, combined_handshake, summarize);
            }
            if all_round_trips(ws).len() <= u64::MAX {
                lemma_summary_count(message_rtt, combined_rtt, summarize);
            }
        }
        AggregatedMetrics {
            total_connections_attempted: attempted_conns,
            total_connections_established: established,
            total_connections_failed: failed,
            total_messages_sent: sent,
            total_messages_recv: recv,
            total_bytes_sent: bytes_sent,
            total_bytes_recv: bytes_recv,
            elapsed,
            throughput_msg_per_sec,
            throughput_bytes_per_sec,
            error_rate,
            handshake_hist: combined_handshake,
            rtt_hist: combined_rtt,
            handshake_latency,
            message_rtt,
            error_breakdown: breakdown,
        }
    }
}

} // verus!
