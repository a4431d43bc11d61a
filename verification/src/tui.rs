//! State and texts of the live dashboard: the throughput history sampled
//! twice a second, the key presses that end a run, and the texts of the
//! header, progress gauge and metric cards.  Drawing them on the terminal
//! happens outside the library.

use vstd::prelude::*;
use crate::rate::{b64_fixed, live_rate, live_rate_of, push_b64_fixed};
use std::collections::VecDeque;
use std::sync::Arc;
use std::time::Instant;
use tokio_util::sync::CancellationToken;
use crate::config::LoadTestConfig;
use crate::metrics::{LiveMetrics, LiveSnapshot};
use crate::tables::{mebibytes_text, Tone};
use crate::text::{decimal, fixed_point, pow10, push_decimal, push_fixed_point, push_str, string_of};
use crate::time::Duration;

verus! {

#[verifier::external_type_specification]
#[verifier::external_body]
pub struct ExInstant(Instant);

/// `Instant::now`: the current reading of the monotonic clock.
#[verifier::external_body]
fn instant_now() -> Instant {
    Instant::now()
}

/// `Instant::duration_since`: the time from `earlier` to `later`, zero when
/// `later` comes first.  It depends on the clock readings, so nothing is
/// stated of it.
#[verifier::external_body]
fn instant_since(later: &Instant, earlier: &Instant) -> core::time::Duration {
    later.duration_since(*earlier)
}

/// How many throughput samples the dashboard keeps.
pub const HISTORY_CAPACITY: usize = 100;

/// How long the dashboard waits between throughput samples: half a second.
pub const SAMPLE_PERIOD_NANOS: u128 = 500_000_000;

/// Messages per second when `delta` messages arrived in `nanos` nanoseconds,
/// rounded toward zero and capped at `u64::MAX`.
pub open spec fn sample_rate(delta: nat, nanos: nat) -> nat {
    let r = delta * 1_000_000_000 / nanos;
    if r > u64::MAX { u64::MAX as nat } else { r }
}

/// Messages received since the last sample, when `received` have been
/// received in all and `last` had been at the last sample (none when the
/// count went down).
pub open spec fn new_messages(received: u64, last: u64) -> nat {
    if received >= last { (received - last) as nat } else { 0 }
}

/// `history` with `x` appended, the oldest sample dropped first when the
/// history is full.
pub open spec fn push_capped(history: Seq<u64>, x: u64) -> Seq<u64> {
    if history.len() >= HISTORY_CAPACITY {
        history.drop_first().push(x)
    } else {
        history.push(x)
    }
}

/// The state of the live dashboard.
pub struct TuiApp {
    pub config: Arc<LoadTestConfig>,
    pub live_metrics: Arc<LiveMetrics>,
    pub cancel_token: CancellationToken,
    /// Throughput samples, oldest first.
    pub history: VecDeque<u64>,
    /// Messages received when the last sample was taken.
    pub last_recv_count: u64,
    /// When the last sample was taken.
    pub last_tick: Instant,
}

impl TuiApp {
    /// The throughput samples, oldest first.
    pub open spec fn history_view(self) -> Seq<u64> {
        self.history@
    }

    /// Messages received when the last sample was taken.
    pub open spec fn last_count(self) -> u64 {
        self.last_recv_count
    }

    pub fn new(config: Arc<LoadTestConfig>, live_metrics: Arc<LiveMetrics>, cancel_token: CancellationToken) -> (app: Self)
        ensures
            app.config == config,
            app.live_metrics == live_metrics,
            app.cancel_token == cancel_token,
            app.history_view() == Seq::<u64>::empty(),
            app.last_count() == 0,
    {
        TuiApp {
            config,
            live_metrics,
            cancel_token,
            history: VecDeque::with_capacity(120),
            last_recv_count: 0,
            last_tick: instant_now(),
        }
    }

    /// Takes a throughput sample when at least half a second has passed
    /// since the last one (`elapsed_nanos` ago): the messages received since
    /// then per second join the history.  Returns whether a sample was taken.
    pub fn sample_after(&mut self, elapsed_nanos: u128, received: u64) -> (taken: bool)
        ensures
            taken == (elapsed_nanos >= SAMPLE_PERIOD_NANOS),
            taken ==> final(self).history_view() == push_capped(old(self).history_view(),
                sample_rate(new_messages(received, old(self).last_count()),
                    elapsed_nanos as nat) as u64),
            taken ==> final(self).last_count() == received,
            !taken ==> final(self).history_view() == old(self).history_view()
                && final(self).last_count() == old(self).last_count(),
            final(self).last_tick == old(self).last_tick,
            final(self).config == old(self).config,
            final(self).live_metrics == old(self).live_metrics,
            final(self).cancel_token == old(self).cancel_token,
    {
        if elapsed_nanos < SAMPLE_PERIOD_NANOS {
            return false;
        }
        let delta = received.saturating_sub(self.last_recv_count);
        proof {
            assert(delta * 1_000_000_000 <= u128::MAX) by (nonlinear_arith)
                requires delta <= u64::MAX;
        }
        let rate = (delta as u128) * 1_000_000_000 / elapsed_nanos;
        let capped: u64 = if rate > 0xffff_ffff_ffff_ffff { 0xffff_ffff_ffff_ffff } else { rate as u64 };
        if self.history.len() >= HISTORY_CAPACITY {
            self.history.pop_front();
        }
        self.history.push_back(capped);
        self.last_recv_count = received;
        true
    }

    /// Takes a throughput sample at `now` when half a second has passed since
    /// the last one, with `received` messages received so far.
    pub fn sample(&mut self, now: Instant, received: u64) -> (taken: bool)
        ensures
            taken ==> exists|elapsed: nat| #![trigger sample_rate(new_messages(received, old(self).last_count()), elapsed)]
                elapsed >= SAMPLE_PERIOD_NANOS && final(self).history_view() == push_capped(old(self).history_view(),
                    sample_rate(new_messages(received, old(self).last_count()),
                        elapsed) as u64),
            taken ==> final(self).last_count() == received && final(self).last_tick == now,
            !taken ==> final(self).history_view() == old(self).history_view()
                && final(self).last_count() == old(self).last_count()
                && final(self).last_tick == old(self).last_tick,
            final(self).config == old(self).config,
            final(self).live_metrics == old(self).live_metrics,
            final(self).cancel_token == old(self).cancel_token,
    {
        let elapsed = crate::time::std_duration_nanos(&instant_since(&now, &self.last_tick));
        let taken = self.sample_after(elapsed, received);
        if taken {
            self.last_tick = now;
        }
        taken
    }

    /// The throughput samples, oldest first.
    pub fn history_samples(&self) -> (v: Vec<u64>)
        ensures
            v@ == self.history_view(),
    {
        let mut v: Vec<u64> = Vec::new();
        let mut i: usize = 0;
        while i < self.history.len()
            invariant
                i <= self.history@.len(),
                v@ == self.history@.take(i as int),
            decreases self.history@.len() - i,
        {
            v.push(self.history[i]);
            i = i + 1;
            assert(v@ =~= self.history@.take(i as int));
        }
        assert(self.history@.take(i as int) =~= self.history@);
        v
    }
}

/// A key of the keyboard, as far as the dashboard tells keys apart.
#[derive(Debug, Clone, Copy, PartialEq, Eq, Structural)]
pub enum Key {
    Char(char),
    Esc,
    Other,
}

/// A key event: the key, whether Control is the only modifier held, and
/// whether the key went down (rather than repeating or going up).
#[derive(Debug, Clone, Copy, PartialEq, Eq, Structural)]
pub struct KeyPress {
    pub key: Key,
    pub control_only: bool,
    pub pressed: bool,
}

/// Whether a key event ends the run: `q`, `Q` or Escape with any modifiers,
/// or Control+`c`, when pressed.
pub open spec fn quits(k: KeyPress) -> bool {
    k.pressed && (k.key == Key::Char('q') || k.key == Key::Char('Q') || k.key == Key::Esc
        || (k.key == Key::Char('c') && k.control_only))
}

/// Whether the key event `k` ends the run (see [`quits`]).
pub fn quit_requested(k: KeyPress) -> (b: bool)
    ensures
        b == quits(k),
{
    if !k.pressed {
        return false;
    }
    match k.key {
        Key::Char(c) => c == 'q' || c == 'Q' || (c == 'c' && k.control_only),
        Key::Esc => true,
        Key::Other => false,
    }
}

/// A duration in seconds with one decimal.
pub open spec fn seconds_text(nanos: nat) -> Seq<char> {
    fixed_point(nanos, 1_000_000_000, 1)
}

/// The elapsed-time text of the dashboard header.
pub open spec fn elapsed_label(elapsed: nat) -> Seq<char> {
    "Elapsed: "@ + seconds_text(elapsed) + "s"@
}

/// The label of the progress gauge: the percentage of the planned duration
/// elapsed (100 when none is planned), then elapsed and planned seconds.
pub open spec fn progress_label(elapsed: nat, total: nat) -> Seq<char> {
    (if total > 0 { fixed_point(elapsed * 100, total, 1) } else { "100.0"@ })
        + "% ("@ + seconds_text(elapsed) + "s / "@ + seconds_text(total) + "s)"@
}

/// The elapsed-time text of the dashboard header.
pub fn elapsed_text(elapsed: &Duration) -> (s: String)
    ensures
        s@ == elapsed_label(elapsed@),
{
    let mut v: Vec<char> = Vec::new();
    push_str(&mut v, "Elapsed: ");
    push_seconds(&mut v, elapsed);
    push_str(&mut v, "s");
    assert(v@ =~= elapsed_label(elapsed@));
    string_of(v)
}

fn push_seconds(out: &mut Vec<char>, d: &Duration)
    ensures
        final(out)@ == old(out)@ + seconds_text(d@),
{
    let n = d.as_nanos();
    proof {
        reveal_with_fuel(pow10, 2);
        assert(n * 10 <= u128::MAX);
    }
    push_fixed_point(out, n, 1_000_000_000, 1);
}

/// The label of the progress gauge (see [`progress_label`]).
pub fn progress_text(elapsed: &Duration, total: &Duration) -> (s: String)
    ensures
        s@ == progress_label(elapsed@, total@),
{
    let mut v: Vec<char> = Vec::new();
    let e = elapsed.as_nanos();
    let t = total.as_nanos();
    if t > 0 {
        proof {
            reveal_with_fuel(pow10, 2);
            assert(e * 100 * 10 <= u128::MAX);
        }
        push_fixed_point(&mut v, e * 100, t, 1);
    } else {
        push_str(&mut v, "100.0");
    }
    push_str(&mut v, "% (");
    push_seconds(&mut v, elapsed);
    push_str(&mut v, "s / ");
    push_seconds(&mut v, total);
    push_str(&mut v, "s)");
    assert(v@ =~= progress_label(elapsed@, total@));
    string_of(v)
}

/// A metric card of the dashboard.
#[derive(Debug, Clone)]
pub struct MetricCard {
    pub title: String,
    /// The figure shown large.
    pub value: String,
    /// Text right after the figure.
    pub unit: String,
    /// The line below the figure.
    pub detail: String,
    /// `Bad` on the error card when errors occurred, `Good` when none did.
    pub tone: Tone,
}

impl View for MetricCard {
    type V = (Seq<char>, Seq<char>, Seq<char>, Seq<char>, Tone);

    open spec fn view(&self) -> (Seq<char>, Seq<char>, Seq<char>, Seq<char>, Tone) {
        (self.title@, self.value@, self.unit@, self.detail@, self.tone)
    }
}

/// Messages received per second over `elapsed` nanoseconds, computed in
/// binary64 (see [`live_rate`]), one decimal; `0.0` before any time has
/// passed.
pub open spec fn inbound_rate_text(received: u64, elapsed: nat) -> Seq<char> {
    b64_fixed(live_rate(received as nat, elapsed), 1)
}

/// Appends [`inbound_rate_text`].
pub fn push_inbound_rate(out: &mut Vec<char>, received: u64, elapsed: &Duration)
    ensures
        final(out)@ == old(out)@ + inbound_rate_text(received, elapsed@),
{
    let r = live_rate_of(received, elapsed.as_nanos());
    proof {
        crate::binary64::lemma_pow2_values();
    }
    push_b64_fixed(out, r, 0, 1);
    proof {
        assert(r.1 + 0 == r.1);
    }
}

/// The four metric cards: connections, inbound throughput, data
/// transferred and errors.
pub open spec fn cards_view(connections: usize, s: LiveSnapshot, elapsed: nat) -> Seq<(Seq<char>, Seq<char>, Seq<char>, Seq<char>, Tone)> {
    seq![
        (" Active Connections "@, decimal(s.active_connections as nat), " / "@ + decimal(connections as nat),
            "Failed: "@ + decimal(s.connections_failed as nat), Tone::Plain),
        (" Inbound Throughput "@, inbound_rate_text(s.messages_received, elapsed), " msg/s"@,
            "Total: "@ + decimal(s.messages_received as nat), Tone::Plain),
        (" Data Transferred "@, mebibytes_text(s.bytes_received), " MB"@,
            "Sent: "@ + mebibytes_text(s.bytes_sent) + " MB"@, Tone::Plain),
        (" Total Errors "@, decimal(s.total_errors as nat), " failures"@,
            if s.total_errors == 0 { "All healthy"@ } else { "Review taxonomy"@ },
            if s.total_errors > 0 { Tone::Bad } else { Tone::Good }),
    ]
}

fn chars_to_string(v: Vec<char>) -> (s: String)
    ensures
        s@ == v@,
{
    string_of(v)
}

fn decimal_text(n: u64) -> (s: String)
    ensures
        s@ == decimal(n as nat),
{
    let mut v: Vec<char> = Vec::new();
    push_decimal(&mut v, n as u128);
    assert(v@ =~= decimal(n as nat));
    string_of(v)
}

fn prefixed(prefix: &str, n: u64) -> (s: String)
    ensures
        s@ == prefix@ + decimal(n as nat),
{
    let mut v: Vec<char> = Vec::new();
    push_str(&mut v, prefix);
    push_decimal(&mut v, n as u128);
    string_of(v)
}

fn mebibytes(bytes: u64) -> (s: String)
    ensures
        s@ == mebibytes_text(bytes),
{
    let mut v: Vec<char> = Vec::new();
    crate::tables::push_mebibytes(&mut v, bytes);
    assert(v@ =~= mebibytes_text(bytes));
    string_of(v)
}

/// The metric cards for the snapshot `s`, `elapsed` into a run of
/// `connections` connections.
pub fn metric_cards(connections: usize, s: &LiveSnapshot, elapsed: &Duration) -> (cards: Vec<MetricCard>)
    ensures
        cards@.map_values(|c: MetricCard| c@) == cards_view(connections, *s, elapsed@),
{
    let mut unit1: Vec<char> = Vec::new();
    push_str(&mut unit1, " / ");
    push_decimal(&mut unit1, connections as u128);
    let mut rate: Vec<char> = Vec::new();
    push_inbound_rate(&mut rate, s.messages_received, elapsed);
    let mut sent: Vec<char> = Vec::new();
    push_str(&mut sent, "Sent: ");
    crate::tables::push_mebibytes(&mut sent, s.bytes_sent);
    push_str(&mut sent, " MB");
    let cards = vec![
        MetricCard {
            title: String::from_str(" Active Connections "),
            value: decimal_text(s.active_connections),
            unit: chars_to_string(unit1),
            detail: prefixed("Failed: ", s.connections_failed),
            tone: Tone::Plain,
        },
        MetricCard {
            title: String::from_str(" Inbound Throughput "),
            value: chars_to_string(rate),
            unit: String::from_str(" msg/s"),
            detail: prefixed("Total: ", s.messages_received),
            tone: Tone::Plain,
        },
        MetricCard {
            title: String::from_str(" Data Transferred "),
            value: mebibytes(s.bytes_received),
            unit: String::from_str(" MB"),
            detail: chars_to_string(sent),
            tone: Tone::Plain,
        },
        MetricCard {
            title: String::from_str(" Total Errors "),
            value: decimal_text(s.total_errors),
            unit: String::from_str(" failures"),
            detail: if s.total_errors == 0 { String::from_str("All healthy") } else { String::from_str("Review taxonomy") },
            tone: if s.total_errors > 0 { Tone::Bad } else { Tone::Good },
        },
    ];
    assert(cards@.map_values(|c: MetricCard| c@) =~= cards_view(connections, *s, elapsed@));
    cards
}

/// The throughput history never holds more than [`HISTORY_CAPACITY`]
/// samples: a new sample is appended last, and the oldest one makes room for
/// it when the history is full.
pub proof fn lemma_history_capped(history: Seq<u64>, x: u64)
    requires
        history.len() <= HISTORY_CAPACITY,
    ensures
        push_capped(history, x).len() <= HISTORY_CAPACITY,
        push_capped(history, x).last() == x,
        history.len() < HISTORY_CAPACITY ==> push_capped(history, x).drop_last() == history,
        history.len() == HISTORY_CAPACITY ==> push_capped(history, x).drop_last() == history.drop_first(),
{
    if history.len() < HISTORY_CAPACITY {
        assert(history.push(x).drop_last() =~= history);
    } else {
        assert(history.drop_first().push(x).drop_last() =~= history.drop_first());
    }
}

} // verus!
