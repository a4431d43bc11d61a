//! The orchestration of a load test: the shared state of a run and the
//! decisions its driver takes (how fast workers start, when the request
//! budget is spent, what the progress line and the descriptor-limit
//! warning say).  The driver itself, which spawns tasks and awaits timers,
//! runs outside the library.

use vstd::prelude::*;
use std::sync::Arc;
use tokio_util::sync::CancellationToken;
use crate::config::LoadTestConfig;
use crate::tui::inbound_rate_text;
use crate::metrics::{LiveMetrics, LiveSnapshot};
use crate::terminal::{bold, colored_text, with_color, Paint};
use crate::text::{decimal, pow10, push_decimal, push_fixed_point, push_str, string_of};
use crate::time::Duration;
use crate::worker::pacing_nanos;

verus! {

/// `CancellationToken::new`: a token not yet cancelled.
#[verifier::external_body]
fn new_cancel_token() -> CancellationToken {
    CancellationToken::new()
}

/// `CancellationToken::clone`: a handle on the same token.  The clone holds
/// the same shared node as `t` (its field is `t`'s `Arc` cloned), so it is
/// cancelled exactly when `t` is: it is the same token.
#[verifier::external_body]
fn clone_token(t: &CancellationToken) -> (r: CancellationToken)
    ensures
        r == *t,
{
    t.clone()
}

/// The shared state of a run: configuration, live counters and the token
/// that stops every worker.
pub struct Runner {
    pub config: Arc<LoadTestConfig>,
    pub live_metrics: Arc<LiveMetrics>,
    pub cancel_token: CancellationToken,
}

impl Runner {
    pub fn new(config: LoadTestConfig) -> (r: Self)
        ensures
            *r.config == config,
    {
        Runner { config: Arc::new(config), live_metrics: LiveMetrics::new(), cancel_token: new_cancel_token() }
    }

    /// A handle on the live counters of the run.
    pub fn live_metrics(&self) -> (m: Arc<LiveMetrics>)
        ensures
            m == self.live_metrics,
    {
        Arc::clone(&self.live_metrics)
    }

    /// A handle on the token that stops the run.
    pub fn cancel_token(&self) -> (t: CancellationToken)
        ensures
            t == self.cancel_token,
    {
        clone_token(&self.cancel_token)
    }
}

/// The pause between starting two workers when `ramp_rate` workers start per
/// second (see [`pacing_nanos`]); none when they all start at once.
pub fn spawn_delay(ramp_rate: u64) -> (d: Option<Duration>)
    ensures
        match pacing_nanos(ramp_rate) {
            Some(n) => d matches Some(x) && x@ == n,
            None => d is None,
        },
{
    crate::worker::pacing_interval(ramp_rate)
}

/// Descriptors kept free for the runtime, its event loop and name resolution.
pub const RESERVED_DESCRIPTORS: usize = 64;

/// Whether `connections` connections, with the reserved descriptors (the
/// sum capped at `usize::MAX`), would exceed the soft limit on open files.
pub open spec fn exceeds_fd_limit(connections: usize, soft_limit: usize) -> bool {
    let needed = connections + RESERVED_DESCRIPTORS;
    (if needed > usize::MAX { usize::MAX as int } else { needed }) > soft_limit
}

/// The warning text after its mark.
pub open spec fn fd_warning_sentence(connections: usize, soft_limit: usize) -> Seq<char> {
    " Configured connections ("@ + decimal(connections as nat)
        + ") approach or exceed system open file limit (ulimit -n = "@ + decimal(soft_limit as nat)
        + "). Consider running 'ulimit -n 65535' to avoid EMFILE socket drops."@
}

/// The warning printed when `connections` would exceed the soft limit on
/// open files; none otherwise.  The mark `Warning:` is styled for the
/// terminal when colors are enabled.
pub fn fd_limit_warning(connections: usize, soft_limit: usize) -> (w: Option<String>)
    ensures
        w is Some <==> exceeds_fd_limit(connections, soft_limit),
        w matches Some(t) ==> exists|mark: Seq<char>| t@ == mark + fd_warning_sentence(connections, soft_limit),
{
    if connections.saturating_add(RESERVED_DESCRIPTORS) > soft_limit {
        let mark = colored_text(&with_color(bold("Warning:"), Paint::Yellow));
        let mut v: Vec<char> = Vec::new();
        push_str(&mut v, mark.as_str());
        push_str(&mut v, " Configured connections (");
        push_decimal(&mut v, connections as u128);
        push_str(&mut v, ") approach or exceed system open file limit (ulimit -n = ");
        push_decimal(&mut v, soft_limit as u128);
        push_str(&mut v, "). Consider running 'ulimit -n 65535' to avoid EMFILE socket drops.");
        assert(v@ =~= mark@ + fd_warning_sentence(connections, soft_limit));
        Some(string_of(v))
    } else {
        None
    }
}

/// Whether the run has sent its budget of `max_requests` messages.
pub fn request_limit_reached(sent: u64, max_requests: u64) -> (b: bool)
    ensures
        b == (sent >= max_requests),
{
    sent >= max_requests
}

/// The status text of the progress bar.
pub open spec fn progress_message(s: LiveSnapshot, elapsed: nat) -> Seq<char> {
    "Active: "@ + decimal(s.active_connections as nat) + " | Msg/s: "@ + inbound_rate_text(s.messages_received, elapsed)
        + " | Recv: "@ + decimal(s.messages_received as nat) + " | Err: "@ + decimal(s.total_errors as nat)
}

/// The status text of the progress bar for the snapshot `s` taken `elapsed`
/// into the run.
pub fn progress_status(s: &LiveSnapshot, elapsed: &Duration) -> (t: String)
    ensures
        t@ == progress_message(*s, elapsed@),
{
    let mut v: Vec<char> = Vec::new();
    push_str(&mut v, "Active: ");
    push_decimal(&mut v, s.active_connections as u128);
    push_str(&mut v, " | Msg/s: ");
    crate::tui::push_inbound_rate(&mut v, s.messages_received, elapsed);
    push_str(&mut v, " | Recv: ");
    push_decimal(&mut v, s.messages_received as u128);
    push_str(&mut v, " | Err: ");
    push_decimal(&mut v, s.total_errors as u128);
    assert(v@ =~= progress_message(*s, elapsed@));
    string_of(v)
}

/// Whole milliseconds of `nanos`, kept to their low 64 bits (`as_millis() as u64`).
pub open spec fn millis_u64(nanos: nat) -> nat {
    (nanos / 1_000_000) % 0x1_0000_0000_0000_0000
}

/// The position of the progress bar, in milliseconds: the time elapsed,
/// held at the planned duration.
pub fn progress_position(elapsed: &Duration, planned: &Duration) -> (p: u64)
    ensures
        p == (if millis_u64(elapsed@) <= millis_u64(planned@) { millis_u64(elapsed@) } else { millis_u64(planned@) }),
{
    let e = elapsed.as_nanos() / 1_000_000 % 0x1_0000_0000_0000_0000;
    let t = planned.as_nanos() / 1_000_000 % 0x1_0000_0000_0000_0000;
    let e64 = e as u64;
    let t64 = t as u64;
    if e64 <= t64 { e64 } else { t64 }
}

} // verus!
