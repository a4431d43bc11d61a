//! One load-generating WebSocket connection: the frames it sends, how it
//! classifies transport failures, and the decisions its session loops take
//! on each event.  The loops themselves, which await the network, run
//! outside the library and hand every event to these functions.

use vstd::prelude::*;
use std::sync::Arc;
use tokio_util::sync::CancellationToken;
use crate::config::{LoadTestConfig, PayloadConfig};
use crate::error::ErrorCategory;
use crate::headers::valid_header_value;
use crate::metrics::{latency_bucket, latency_sample, WorkerMetrics};
use crate::hdr::histogram_values;
use crate::text::{chars_of, decimal, push_chars, push_decimal, string_of};
use crate::time::Duration;
use vstd::utf8::encode_utf8;
use crate::binary64::{binary64_of_int, binary64_of_u64, binary64_reciprocal, binary64_reciprocal_of, lemma_binary64_of_int_bound, lemma_binary64_of_int_close, lemma_pow2_values, lemma_round_at_most, lemma_round_close, pow2, reciprocal_shift};

verus! {

#[verifier::external_type_specification]
#[verifier::external_body]
pub struct ExCancellationToken(CancellationToken);

/// A WebSocket frame as the session sees it.
#[derive(Debug, Clone)]
pub enum Frame {
    Text(String),
    Binary(Vec<u8>),
    Ping(Vec<u8>),
    Pong(Vec<u8>),
    Close,
    /// A raw frame, only seen when reading at the lowest level.
    Raw,
}

/// Bytes of payload a frame carries: the UTF-8 length of a text, the length
/// of binary, ping and pong data, none for close and raw frames.
pub open spec fn frame_byte_len(f: Frame) -> nat {
    match f {
        Frame::Text(t) => encode_utf8(t@).len(),
        Frame::Binary(b) => b@.len(),
        Frame::Ping(b) => b@.len(),
        Frame::Pong(b) => b@.len(),
        Frame::Close => 0,
        Frame::Raw => 0,
    }
}

/// The payload size of `msg` in bytes.
pub fn message_byte_len(msg: &Frame) -> (n: usize)
    ensures
        n == frame_byte_len(*msg) as usize,
{
    match msg {
        Frame::Text(t) => t.as_str().len(),
        Frame::Binary(b) => b.len(),
        Frame::Ping(b) => b.len(),
        Frame::Pong(b) => b.len(),
        Frame::Close => 0,
        Frame::Raw => 0,
    }
}

/// The kind of an I/O failure underneath a transport failure.
#[derive(Debug, Clone, Copy, PartialEq, Eq, Structural)]
pub enum IoFailure {
    TimedOut,
    ConnectionRefused,
    ConnectionReset,
    Other,
}

/// A failure of the WebSocket transport, as far as its category depends on it.
#[derive(Debug, Clone, Copy, PartialEq, Eq, Structural)]
pub enum TransportFailure {
    /// The target's host name could not be resolved to an address.
    AddressLookup,
    /// The connection was closed normally.
    ConnectionClosed,
    /// The connection was used after it had been closed.
    AlreadyClosed,
    /// The HTTP upgrade was answered with this status code.
    Http(u16),
    Io(IoFailure),
    Tls,
    Protocol,
    WriteBufferFull,
    /// Any other failure (capacity, UTF-8, URL, HTTP format, attack detection).
    Other,
}

/// HTTP status codes 400 to 499 (`StatusCode::is_client_error`).
pub open spec fn is_client_error(status: u16) -> bool {
    400 <= status < 500
}

/// HTTP status codes 500 to 599 (`StatusCode::is_server_error`).
pub open spec fn is_server_error(status: u16) -> bool {
    500 <= status < 600
}

/// The error category of a transport failure.
pub open spec fn failure_category(f: TransportFailure) -> ErrorCategory {
    match f {
        TransportFailure::AddressLookup => ErrorCategory::DnsResolution,
        TransportFailure::ConnectionClosed => ErrorCategory::UnexpectedClose,
        TransportFailure::AlreadyClosed => ErrorCategory::UnexpectedClose,
        TransportFailure::Http(s) => if is_client_error(s) || is_server_error(s) {
            ErrorCategory::HttpUpgradeRejected
        } else {
            ErrorCategory::ProtocolError
        },
        TransportFailure::Io(IoFailure::TimedOut) => ErrorCategory::Timeout,
        TransportFailure::Io(IoFailure::ConnectionRefused) => ErrorCategory::TcpConnect,
        TransportFailure::Io(IoFailure::ConnectionReset) => ErrorCategory::TcpConnect,
        TransportFailure::Io(IoFailure::Other) => ErrorCategory::WriteError,
        TransportFailure::Tls => ErrorCategory::TlsHandshake,
        TransportFailure::Protocol => ErrorCategory::ProtocolError,
        TransportFailure::WriteBufferFull => ErrorCategory::WriteError,
        TransportFailure::Other => ErrorCategory::Other,
    }
}

/// An upgrade answered with an HTTP status is rejected when the status is a
/// client or server error (400 to 599); any other status is a protocol error.
pub proof fn lemma_http_status_category(s: u16)
    ensures
        400 <= s < 600 ==> failure_category(TransportFailure::Http(s)) == ErrorCategory::HttpUpgradeRejected,
        s < 400 || s >= 600 ==> failure_category(TransportFailure::Http(s)) == ErrorCategory::ProtocolError,
{
}

/// Normalises a transport failure into its error category.
pub fn categorize_tungstenite_error(err: &TransportFailure) -> (c: ErrorCategory)
    ensures
        c == failure_category(*err),
        *err matches TransportFailure::Http(s) ==> c == (if 400 <= s && s < 600 {
            ErrorCategory::HttpUpgradeRejected
        } else {
            ErrorCategory::ProtocolError
        }),
{
    match err {
        TransportFailure::AddressLookup => ErrorCategory::DnsResolution,
        TransportFailure::ConnectionClosed | TransportFailure::AlreadyClosed => ErrorCategory::UnexpectedClose,
        TransportFailure::Http(status) => {
            let s = *status;
            if (400 <= s && s < 500) || (500 <= s && s < 600) {
                ErrorCategory::HttpUpgradeRejected
            } else {
                ErrorCategory::ProtocolError
            }
        },
        TransportFailure::Io(kind) => match kind {
            IoFailure::TimedOut => ErrorCategory::Timeout,
            IoFailure::ConnectionRefused | IoFailure::ConnectionReset => ErrorCategory::TcpConnect,
            IoFailure::Other => ErrorCategory::WriteError,
        },
        TransportFailure::Tls => ErrorCategory::TlsHandshake,
        TransportFailure::Protocol => ErrorCategory::ProtocolError,
        TransportFailure::WriteBufferFull => ErrorCategory::WriteError,
        TransportFailure::Other => ErrorCategory::Other,
    }
}

/// `s` with every occurrence of `pat` replaced by `rep`, scanning from the
/// left and resuming after each replaced occurrence (`str::replace`).
pub open spec fn replace_all(s: Seq<char>, pat: Seq<char>, rep: Seq<char>) -> Seq<char>
    decreases s.len(),
{
    if pat.len() == 0 || s.len() < pat.len() {
        s
    } else if s.subrange(0, pat.len() as int) == pat {
        rep + replace_all(s.subrange(pat.len() as int, s.len() as int), pat, rep)
    } else {
        seq![s[0]] + replace_all(s.drop_first(), pat, rep)
    }
}

/// The text of a dynamic payload: `{{timestamp}}`, then `{{worker_id}}`, then
/// `{{seq}}` replaced by their decimal values.
pub open spec fn rendered_template(template: Seq<char>, now_ms: nat, worker_id: nat, seq: nat) -> Seq<char> {
    replace_all(
        replace_all(
            replace_all(template, crate::config::timestamp_placeholder(), decimal(now_ms)),
            crate::config::worker_id_placeholder(),
            decimal(worker_id),
        ),
        crate::config::seq_placeholder(),
        decimal(seq),
    )
}

/// `s` with `pat` replaced by `rep` (see [`replace_all`]).
pub fn replace_chars(s: &Vec<char>, pat: &Vec<char>, rep: &Vec<char>) -> (r: Vec<char>)
    requires
        pat@.len() > 0,
    ensures
        r@ == replace_all(s@, pat@, rep@),
{
    let n = s.len();
    let p = pat.len();
    let mut out: Vec<char> = Vec::new();
    let mut i: usize = 0;
    assert(s@.subrange(0, n as int) =~= s@);
    assert(out@ + replace_all(s@, pat@, rep@) =~= replace_all(s@, pat@, rep@));
    while i < n
        invariant
            i <= n,
            n == s@.len(),
            p == pat@.len(),
            p > 0,
            out@ + replace_all(s@.subrange(i as int, n as int), pat@, rep@) == replace_all(s@, pat@, rep@),
        decreases n - i,
    {
        let ghost rest = s@.subrange(i as int, n as int);
        if crate::text::matches_at(s, pat, i) {
            proof {
                assert(rest.subrange(0, p as int) =~= s@.subrange(i as int, i + p));
                assert(rest.subrange(p as int, rest.len() as int) =~= s@.subrange(i + p, n as int));
                assert(out@ + rep@ + replace_all(s@.subrange(i + p, n as int), pat@, rep@)
                    =~= out@ + replace_all(rest, pat@, rep@));
            }
            push_chars(&mut out, rep);
            i = i + p;
        } else {
            proof {
                if rest.len() >= p {
                    assert(rest.subrange(0, p as int) =~= s@.subrange(i as int, i + p));
                }
                assert(rest.drop_first() =~= s@.subrange(i + 1, n as int));
                if rest.len() < p {
                    // too short for another occurrence: the rest is kept as it is
                    assert(replace_all(rest, pat@, rep@) == rest);
                    assert(rest.len() >= 1);
                    assert(replace_all(rest.drop_first(), pat@, rep@) == rest.drop_first());
                    assert(rest =~= seq![rest[0]] + rest.drop_first());
                }
                assert(out@.push(s@[i as int]) + replace_all(s@.subrange(i + 1, n as int), pat@, rep@)
                    =~= out@ + replace_all(rest, pat@, rep@));
            }
            out.push(s[i]);
            i = i + 1;
        }
    }
    proof {
        assert(s@.subrange(i as int, n as int) =~= Seq::<char>::empty());
    }
    out
}

/// The decimal digits of `n`.
fn decimal_vec(n: u128) -> (r: Vec<char>)
    ensures
        r@ == decimal(n as nat),
{
    let mut v: Vec<char> = Vec::new();
    push_decimal(&mut v, n);
    assert(v@ =~= decimal(n as nat));
    v
}

/// The text of a dynamic payload at `now_ms` milliseconds since the Unix
/// epoch (see [`rendered_template`]).
pub fn render_template(template: &str, now_ms: u128, worker_id: usize, seq: u64) -> (r: String)
    ensures
        r@ == rendered_template(template@, now_ms as nat, worker_id as nat, seq as nat),
{
    let (ts, wid, sq) = crate::config::placeholders();
    let t0 = chars_of(template);
    let t1 = replace_chars(&t0, &ts, &decimal_vec(now_ms));
    let t2 = replace_chars(&t1, &wid, &decimal_vec(worker_id as u128));
    let t3 = replace_chars(&t2, &sq, &decimal_vec(seq as u128));
    string_of(t3)
}

#[verifier::external_type_specification]
#[verifier::external_body]
pub struct ExSystemTime(std::time::SystemTime);

#[verifier::external_type_specification]
#[verifier::external_body]
pub struct ExSystemTimeError(std::time::SystemTimeError);

/// `SystemTime::now`: the current reading of the system clock.
#[verifier::external_body]
fn system_now() -> std::time::SystemTime {
    std::time::SystemTime::now()
}

/// `SystemTime::duration_since` the Unix epoch: fails when the clock reads
/// a time before the epoch.  It depends on the clock, so nothing is stated.
#[verifier::external_body]
fn since_unix_epoch(t: &std::time::SystemTime) -> Result<core::time::Duration, std::time::SystemTimeError> {
    t.duration_since(std::time::UNIX_EPOCH)
}

/// Milliseconds since the Unix epoch by the system clock, or zero when the
/// clock reads a time before the epoch.  Which time the clock reads is not
/// known here; whatever it reads, the milliseconds lie within the range of
/// a standard duration.
fn unix_time_millis() -> (ms: u128)
    ensures
        ms <= crate::time::max_nanos() / 1_000_000,
{
    match since_unix_epoch(&system_now()) {
        Ok(d) => crate::time::std_duration_nanos(&d) / 1_000_000,
        Err(_) => 0,
    }
}

/// A worker session: its identity, the shared configuration, the token that
/// stops it, and the metrics it collects.
pub struct WorkerSession {
    pub worker_id: usize,
    pub config: Arc<LoadTestConfig>,
    pub cancel_token: CancellationToken,
    pub metrics: WorkerMetrics,
}

/// How a session loop goes on after an event.
#[derive(Debug, Clone, Copy, PartialEq, Eq, Structural)]
pub enum Flow {
    Continue,
    Stop,
}

/// What the echo loop does with a frame that arrives while it awaits the
/// echo of its message.
#[derive(Debug, Clone)]
pub enum EchoStep {
    /// The echo arrived, with this many bytes; `open` is false when the
    /// server closed the connection instead.
    Reply { bytes: usize, open: bool },
    /// Answer a ping with a pong carrying its data, then keep waiting.
    Answer(Vec<u8>),
    /// Keep waiting.
    Wait,
}

/// What the echo loop does with an inbound frame.
pub open spec fn echo_step_of(f: Frame) -> EchoStep {
    match f {
        Frame::Text(t) => EchoStep::Reply { bytes: encode_utf8(t@).len() as usize, open: true },
        Frame::Binary(b) => EchoStep::Reply { bytes: b@.len() as usize, open: true },
        Frame::Ping(d) => EchoStep::Answer(d),
        Frame::Pong(_) => EchoStep::Wait,
        Frame::Close => EchoStep::Reply { bytes: 0, open: false },
        Frame::Raw => EchoStep::Wait,
    }
}

/// A data frame that arrives while an echo is awaited is the echo: a binary
/// frame counts as a reply of its length in bytes, a text frame as one of
/// its UTF-8 length, and the connection stays open; a close frame ends the
/// wait with nothing received and the connection closed.
pub proof fn lemma_data_frames_are_echoes(b: Vec<u8>, t: String)
    ensures
        echo_step_of(Frame::Binary(b)) == (EchoStep::Reply { bytes: b@.len() as usize, open: true }),
        echo_step_of(Frame::Text(t)) == (EchoStep::Reply { bytes: encode_utf8(t@).len() as usize, open: true }),
        echo_step_of(Frame::Close) == (EchoStep::Reply { bytes: 0, open: false }),
{
}

/// Classifies a frame received while awaiting an echo.
pub fn echo_step(frame: Frame) -> (s: EchoStep)
    ensures
        s == echo_step_of(frame),
        frame matches Frame::Binary(b) ==> s == (EchoStep::Reply { bytes: b@.len() as usize, open: true }),
        frame matches Frame::Text(t) ==> s == (EchoStep::Reply { bytes: encode_utf8(t@).len() as usize, open: true }),
        frame is Close ==> s == (EchoStep::Reply { bytes: 0, open: false }),
{
    match frame {
        Frame::Text(t) => EchoStep::Reply { bytes: t.as_str().len(), open: true },
        Frame::Binary(b) => EchoStep::Reply { bytes: b.len(), open: true },
        Frame::Ping(d) => EchoStep::Answer(d),
        Frame::Pong(_) => EchoStep::Wait,
        Frame::Close => EchoStep::Reply { bytes: 0, open: false },
        Frame::Raw => EchoStep::Wait,
    }
}

/// The counters of `m` may take one more error under `c`.
pub open spec fn error_room(m: WorkerMetrics, c: ErrorCategory) -> bool {
    m.errors.count(c) < u64::MAX
}

/// The counters of `m` may take one more sent message of `n` bytes.
pub open spec fn send_room(m: WorkerMetrics, n: nat) -> bool {
    m.messages_sent < u64::MAX && m.bytes_sent + n <= u64::MAX
}

/// The counters of `m` may take one more received message of `n` bytes.
pub open spec fn recv_room(m: WorkerMetrics, n: nat) -> bool {
    m.messages_recv < u64::MAX && m.bytes_recv + n <= u64::MAX
}

/// `after` is `before` with one more error under `c` and nothing else changed.
pub open spec fn one_more_error(before: WorkerMetrics, after: WorkerMetrics, c: ErrorCategory) -> bool {
    &&& after@ == before@
    &&& after.errors.count(c) == before.errors.count(c) + 1
    &&& forall|k: ErrorCategory| k != c ==> #[trigger] after.errors.count(k) == before.errors.count(k)
    &&& after.handshake_hist == before.handshake_hist
    &&& after.rtt_hist == before.rtt_hist
}

/// `after` is `before` with one more sent message of `n` bytes and nothing
/// else changed.
pub open spec fn one_more_sent(before: WorkerMetrics, after: WorkerMetrics, n: nat) -> bool {
    &&& after@ == (
        (before.messages_sent + 1) as u64,
        before.messages_recv,
        (before.bytes_sent + n) as u64,
        before.bytes_recv,
    )
    &&& after.errors == before.errors
    &&& after.handshake_hist == before.handshake_hist
    &&& after.rtt_hist == before.rtt_hist
}

/// `after` is `before` with one more received message of `n` bytes, its
/// round-trip time `rtt` recorded when given, and nothing else changed.
pub open spec fn one_more_received(before: WorkerMetrics, after: WorkerMetrics, n: nat, rtt: Option<Duration>) -> bool {
    &&& after@ == (
        before.messages_sent,
        (before.messages_recv + 1) as u64,
        before.bytes_sent,
        (before.bytes_recv + n) as u64,
    )
    &&& after.errors == before.errors
    &&& after.handshake_hist == before.handshake_hist
    &&& match rtt {
        Some(d) => histogram_values(before.rtt_hist).len() < u64::MAX ==> histogram_values(after.rtt_hist)
            == histogram_values(before.rtt_hist).insert(latency_bucket(latency_sample(d@))),
        None => after.rtt_hist == before.rtt_hist,
    }
    &&& after.wf()
}

impl WorkerSession {
    pub fn new(worker_id: usize, config: Arc<LoadTestConfig>, cancel_token: CancellationToken, metrics: WorkerMetrics) -> (s: Self)
        ensures
            s.worker_id == worker_id,
            s.config == config,
            s.cancel_token == cancel_token,
            s.metrics == metrics,
    {
        WorkerSession { worker_id, config, cancel_token, metrics }
    }

    /// The frame of message number `seq` when the clock reads `now_ms`
    /// milliseconds since the Unix epoch.
    pub fn render_payload_at(&self, seq: u64, now_ms: u128) -> (f: Frame)
        ensures
            self.config.payload matches PayloadConfig::Binary(b) ==> f matches Frame::Binary(c) && c@ == b@,
            self.config.payload matches PayloadConfig::StaticText(t) ==> f matches Frame::Text(r) && r@ == t@,
            self.config.payload matches PayloadConfig::DynamicText(t) ==>
                f matches Frame::Text(r) && r@ == rendered_template(t@, now_ms as nat, self.worker_id as nat, seq as nat),
    {
        match &self.config.payload {
            PayloadConfig::Binary(bytes) => Frame::Binary(bytes.clone()),
            PayloadConfig::StaticText(t) => Frame::Text(t.clone()),
            PayloadConfig::DynamicText(template) => {
                Frame::Text(render_template(template.as_str(), now_ms, self.worker_id, seq))
            },
        }
    }

    /// The frame of message number `seq`: a dynamic payload is rendered at
    /// the current time of the system clock.
    pub fn render_payload(&self, seq: u64) -> (f: Frame)
        ensures
            self.config.payload matches PayloadConfig::Binary(b) ==> f matches Frame::Binary(c) && c@ == b@,
            self.config.payload matches PayloadConfig::StaticText(t) ==> f matches Frame::Text(r) && r@ == t@,
            self.config.payload matches PayloadConfig::DynamicText(t) ==>
                exists|now_ms: u128| #![trigger rendered_template(t@, now_ms as nat, self.worker_id as nat, seq as nat)]
                    f matches Frame::Text(r) && r@ == rendered_template(t@, now_ms as nat, self.worker_id as nat, seq as nat),
    {
        let now_ms = match &self.config.payload {
            PayloadConfig::DynamicText(_) => unix_time_millis(),
            _ => 0,
        };
        self.render_payload_at(seq, now_ms)
    }

    /// The headers the handshake carries besides the WebSocket ones: the
    /// configured headers in order, then the subprotocol, when one is
    /// configured and is a valid header value.
    pub fn handshake_headers(&self) -> (h: Vec<(String, String)>)
        ensures
            h@.len() == self.config.headers@.len() + (match self.config.subprotocol {
                Some(p) => if valid_header_value(p@) { 1int } else { 0int },
                None => 0int,
            }),
            forall|i: int| 0 <= i < self.config.headers@.len() ==>
                (#[trigger] h@[i]).0@ == self.config.headers@[i].0@ && h@[i].1@ == self.config.headers@[i].1@,
            match self.config.subprotocol {
                Some(p) => valid_header_value(p@) ==> h@.last().0@ == "sec-websocket-protocol"@ && h@.last().1@ == p@,
                None => true,
            },
    {
        let mut h: Vec<(String, String)> = Vec::new();
        let n = self.config.headers.len();
        let mut i: usize = 0;
        while i < n
            invariant
                i <= n,
                n == self.config.headers@.len(),
                h@.len() == i,
                forall|j: int| 0 <= j < i ==>
                    (#[trigger] h@[j]).0@ == self.config.headers@[j].0@ && h@[j].1@ == self.config.headers@[j].1@,
            decreases n - i,
        {
            let (name, value) = &self.config.headers[i];
            h.push((name.clone(), value.clone()));
            i = i + 1;
        }
        match &self.config.subprotocol {
            Some(p) => {
                if crate::headers::header_value_accepts(p.as_str()) {
                    h.push((String::from_str("sec-websocket-protocol"), p.clone()));
                }
            },
            None => {},
        }
        h
    }

    /// After the connection attempt: a successful handshake is recorded
    /// with its duration; a failure counts a failed connection under its
    /// category (a timeout under `Timeout`).  The session goes on only
    /// after a handshake.
    pub fn on_connect(&mut self, outcome: Result<Duration, Option<TransportFailure>>) -> (flow: Flow)
        requires
            old(self).metrics.wf(),
            outcome matches Err(f) ==> error_room(old(self).metrics, match f {
                Some(t) => failure_category(t),
                None => ErrorCategory::Timeout,
            }),
        ensures
            final(self).worker_id == old(self).worker_id,
            final(self).config == old(self).config,
            final(self).metrics.wf(),
            flow == (if outcome is Ok { Flow::Continue } else { Flow::Stop }),
            match outcome {
                Ok(d) => final(self).metrics@ == old(self).metrics@
                    && final(self).metrics.errors == old(self).metrics.errors
                    && final(self).metrics.rtt_hist == old(self).metrics.rtt_hist
                    && (histogram_values(old(self).metrics.handshake_hist).len() < u64::MAX ==>
                        histogram_values(final(self).metrics.handshake_hist)
                            == histogram_values(old(self).metrics.handshake_hist).insert(latency_bucket(latency_sample(d@)))),
                Err(Some(t)) => one_more_error(old(self).metrics, final(self).metrics, failure_category(t)),
                Err(None) => one_more_error(old(self).metrics, final(self).metrics, ErrorCategory::Timeout),
            },
    {
        match outcome {
            Ok(d) => {
                self.metrics.record_handshake(d);
                Flow::Continue
            },
            Err(Some(t)) => {
                let c = categorize_tungstenite_error(&t);
                self.metrics.record_connection_failed(c);
                Flow::Stop
            },
            Err(None) => {
                self.metrics.record_connection_failed(ErrorCategory::Timeout);
                Flow::Stop
            },
        }
    }

    /// After sending a message of `len` bytes: counted when sent, an error
    /// under its category ending the loop when the send failed.
    pub fn on_sent(&mut self, len: usize, result: Result<(), TransportFailure>) -> (flow: Flow)
        requires
            old(self).metrics.wf(),
            result is Ok ==> send_room(old(self).metrics, len as nat),
            result matches Err(f) ==> error_room(old(self).metrics, failure_category(f)),
        ensures
            final(self).worker_id == old(self).worker_id,
            final(self).config == old(self).config,
            final(self).metrics.wf(),
            flow == (if result is Ok { Flow::Continue } else { Flow::Stop }),
            match result {
                Ok(_) => one_more_sent(old(self).metrics, final(self).metrics, len as nat),
                Err(f) => one_more_error(old(self).metrics, final(self).metrics, failure_category(f)),
            },
    {
        match result {
            Ok(()) => {
                self.metrics.record_message_sent(len);
                Flow::Continue
            },
            Err(f) => {
                let c = categorize_tungstenite_error(&f);
                self.metrics.record_error(c);
                Flow::Stop
            },
        }
    }

    /// After awaiting the echo of a message sent `rtt` ago: the reply is
    /// counted with its round-trip time, the loop ending when the server
    /// closed instead; a failure (`None` for a timeout) counts an error
    /// under its category and ends the loop.
    pub fn on_echo(&mut self, outcome: Result<(usize, bool), Option<ErrorCategory>>, rtt: Duration) -> (flow: Flow)
        requires
            old(self).metrics.wf(),
            outcome matches Ok((n, _)) ==> recv_room(old(self).metrics, n as nat),
            outcome matches Err(c) ==> error_room(old(self).metrics, match c {
                Some(k) => k,
                None => ErrorCategory::Timeout,
            }),
        ensures
            final(self).worker_id == old(self).worker_id,
            final(self).config == old(self).config,
            final(self).metrics.wf(),
            flow == (if outcome matches Ok((_, true)) { Flow::Continue } else { Flow::Stop }),
            match outcome {
                Ok((n, _)) => one_more_received(old(self).metrics, final(self).metrics, n as nat, Some(rtt)),
                Err(Some(c)) => one_more_error(old(self).metrics, final(self).metrics, c),
                Err(None) => one_more_error(old(self).metrics, final(self).metrics, ErrorCategory::Timeout),
            },
    {
        match outcome {
            Ok((n, open)) => {
                self.metrics.record_message_recv(n, Some(rtt));
                if open { Flow::Continue } else { Flow::Stop }
            },
            Err(Some(c)) => {
                self.metrics.record_error(c);
                Flow::Stop
            },
            Err(None) => {
                self.metrics.record_error(ErrorCategory::Timeout);
                Flow::Stop
            },
        }
    }

    /// After reading the next inbound item in the stream and listen modes
    /// (`None` when the stream ended): text and binary frames are counted,
    /// without round-trip time; a close or the end of the stream ends the
    /// loop; a failure counts an error under its category and ends the loop;
    /// other frames are passed over.
    pub fn on_inbound(&mut self, item: Option<Result<Frame, TransportFailure>>) -> (flow: Flow)
        requires
            old(self).metrics.wf(),
            item matches Some(Ok(f)) ==> recv_room(old(self).metrics, frame_byte_len(f)) && frame_byte_len(f) <= usize::MAX,
            item matches Some(Err(e)) ==> error_room(old(self).metrics, failure_category(e)),
        ensures
            final(self).worker_id == old(self).worker_id,
            final(self).config == old(self).config,
            final(self).metrics.wf(),
            match item {
                Some(Ok(Frame::Text(t))) => flow == Flow::Continue
                    && one_more_received(old(self).metrics, final(self).metrics, encode_utf8(t@).len(), None),
                Some(Ok(Frame::Binary(b))) => flow == Flow::Continue
                    && one_more_received(old(self).metrics, final(self).metrics, b@.len(), None),
                Some(Ok(Frame::Close)) => flow == Flow::Stop && final(self).metrics == old(self).metrics,
                None => flow == Flow::Stop && final(self).metrics == old(self).metrics,
                Some(Err(e)) => flow == Flow::Stop
                    && one_more_error(old(self).metrics, final(self).metrics, failure_category(e)),
                Some(Ok(_)) => flow == Flow::Continue && final(self).metrics == old(self).metrics,
            },
    {
        match item {
            Some(Ok(Frame::Text(t))) => {
                self.metrics.record_message_recv(t.as_str().len(), None);
                Flow::Continue
            },
            Some(Ok(Frame::Binary(b))) => {
                self.metrics.record_message_recv(b.len(), None);
                Flow::Continue
            },
            Some(Ok(Frame::Close)) | None => Flow::Stop,
            Some(Err(e)) => {
                let c = categorize_tungstenite_error(&e);
                self.metrics.record_error(c);
                Flow::Stop
            },
            Some(Ok(_)) => Flow::Continue,
        }
    }

    /// At the end of a session that connected: the connection is recorded
    /// as closed in the live counters; the metrics stay as they are.
    pub fn on_closed(&mut self)
        ensures
            *final(self) == *old(self),
    {
        self.metrics.record_connection_closed();
    }
}

/// The pause between two messages of a connection sending `rate` messages
/// per second, in nanoseconds: `1 / rate` seconds taken as a 64-bit float
/// (the rate itself converted to one first) and converted to nanoseconds,
/// rounded to the nearest, ties to even; none when the rate is not limited.
pub open spec fn pacing_nanos(rate: u64) -> Option<nat> {
    if rate > 0 {
        let (m, s) = binary64_reciprocal(binary64_of_int(rate as nat));
        Some(crate::text::round_half_even(m * 1_000_000_000, pow2(s)))
    } else {
        None
    }
}

/// The pause between two messages in the echo mode (see [`pacing_nanos`]).
pub fn pacing_interval(rate: u64) -> (d: Option<Duration>)
    ensures
        match pacing_nanos(rate) {
            Some(n) => d matches Some(x) && x@ == n,
            None => d is None,
        },
{
    if rate > 0 {
        let r = binary64_of_u64(rate);
        proof {
            lemma_pow2_values();
            lemma_binary64_of_int_close(rate as nat);
        }
        let (m, p) = binary64_reciprocal_of(r);
        proof {
            assert(m * 1_000_000_000 <= p * 1_000_000_000) by (nonlinear_arith)
                requires m <= p;
            assert(p > 0) by (nonlinear_arith)
                requires p >= r * pow2(52), r >= 1, pow2(52) > 0;
            lemma_round_at_most((m * 1_000_000_000) as nat, p as nat, 1_000_000_000);
            assert(m * 1_000_000_000 <= u128::MAX) by (nonlinear_arith)
                requires m <= 0x40_0000_0000_0000;
        }
        let n = crate::text::round_half_even_u128(m * 1_000_000_000, p);
        Some(Duration::from_nanos(n as u64))
    } else {
        None
    }
}

/// The pause between two messages in the stream mode: as in the echo mode,
/// and 10 microseconds when the rate is not limited.
pub fn stream_interval(rate: u64) -> (d: Duration)
    ensures
        d@ == (match pacing_nanos(rate) {
            Some(n) => n,
            None => 10_000,
        }),
{
    match pacing_interval(rate) {
        Some(d) => d,
        None => Duration::from_micros(10),
    }
}

proof fn lemma_replace_absent(s: Seq<char>, pat: Seq<char>, rep: Seq<char>)
    requires
        pat.len() > 0,
        !crate::text::contains_seq(s, pat),
    ensures
        replace_all(s, pat, rep) == s,
    decreases s.len(),
{
    if s.len() >= pat.len() {
        assert(!crate::text::occurs_at(s, pat, 0));
        let t = s.drop_first();
        assert forall|i: int| !crate::text::occurs_at(t, pat, i) by {
            if crate::text::occurs_at(t, pat, i) {
                assert(s.subrange(i + 1, i + 1 + pat.len()) =~= t.subrange(i, i + pat.len()));
                assert(crate::text::occurs_at(s, pat, i + 1));
            }
        }
        lemma_replace_absent(t, pat, rep);
        assert(seq![s[0]] + t =~= s);
    }
}

/// A text without placeholders renders to itself, whatever the time, worker
/// and sequence number: static payloads need no rendering.
pub proof fn lemma_static_text_renders_unchanged(t: Seq<char>, now_ms: nat, worker_id: nat, seq: nat)
    requires
        !crate::config::has_placeholder(t),
    ensures
        rendered_template(t, now_ms, worker_id, seq) == t,
{
    lemma_replace_absent(t, crate::config::timestamp_placeholder(), decimal(now_ms));
    lemma_replace_absent(t, crate::config::worker_id_placeholder(), decimal(worker_id));
    lemma_replace_absent(t, crate::config::seq_placeholder(), decimal(seq));
}

/// Pacing at `rate` messages per second spaces messages so that `rate` of
/// them span one second to within half a pause.
pub proof fn lemma_pacing_spans_one_second(rate: u64)
    requires
        rate > 0,
    ensures
        pacing_nanos(rate) matches Some(n) && -(rate as int) <= 2 * (n * rate - 1_000_000_000) <= rate,
{
    lemma_pow2_values();
    let r = binary64_of_int(rate as nat);
    lemma_binary64_of_int_close(rate as nat);
    assert(r >= 1) by {
        if rate < 0x20_0000_0000_0000 {
        } else {
            assert(r + 2048 >= rate);
        }
    }
    assert(r <= pow2(64)) by {
        lemma_binary64_of_int_bound(rate as nat);
    }
    let s = reciprocal_shift(r, 0);
    crate::binary64::lemma_reciprocal_shift_found_pub(r);
    let p = pow2(s);
    let m = crate::text::round_half_even(p, r);
    let n = crate::text::round_half_even(m * 1_000_000_000, p);
    assert(pacing_nanos(rate) == Some(n));
    assert(p >= r * pow2(52));
    assert(p > 0) by (nonlinear_arith)
        requires p >= r * pow2(52), r >= 1, pow2(52) > 0;
    lemma_round_close(p, r);
    lemma_round_close(m * 1_000_000_000, p);
    assert(p > 1_000_000_000 * r) by (nonlinear_arith)
        requires p >= r * pow2(52), pow2(52) == 0x10_0000_0000_0000, r >= 1;
    if rate < 0x20_0000_0000_0000 {
        assert(r == rate);
        let d = 2 * (n * r - 1_000_000_000);
        assert(d * p == r * (2 * (n * p - 1_000_000_000 * m)) + 1_000_000_000 * (2 * (m * r - p))) by (nonlinear_arith)
            requires d == 2 * (n * r - 1_000_000_000);
        assert(r * (2 * (n * p - 1_000_000_000 * m)) <= r * p) by (nonlinear_arith)
            requires 2 * (n * p - 1_000_000_000 * m) <= p, r >= 1;
        assert(r * (2 * (n * p - 1_000_000_000 * m)) >= -(r * p)) by (nonlinear_arith)
            requires -(p as int) <= 2 * (n * p - 1_000_000_000 * m), r >= 1;
        assert(d <= r) by (nonlinear_arith)
            requires d * p <= r * p + 1_000_000_000 * r, p > 1_000_000_000 * r, p > 0;
        assert(d >= -(r as int)) by (nonlinear_arith)
            requires d * p >= -(r * p) - 1_000_000_000 * r, p > 1_000_000_000 * r, p > 0;
        assert(-(rate as int) <= 2 * (n * rate - 1_000_000_000) <= rate);
    } else {
        // a rate this high makes the pause round to nothing
        assert(r >= 0x20_0000_0000_0000 - 2048);
        assert(2 * (m * r) <= 2 * p + r);
        assert(2 * (m * 1_000_000_000) * r <= (2 * p + r) * 1_000_000_000) by (nonlinear_arith)
            requires 2 * (m * r) <= 2 * p + r;
        assert(2 * (m * 1_000_000_000) < p) by (nonlinear_arith)
            requires 2 * (m * 1_000_000_000) * r <= (2 * p + r) * 1_000_000_000,
                r >= 0x20_0000_0000_0000 - 2048, p > 1_000_000_000 * r;
        let x = m * 1_000_000_000;
        assert(x / p == 0 && x % p == x) by (nonlinear_arith)
            requires 2 * x < p, x >= 0;
        assert(n == 0);
        assert(-(rate as int) <= 2 * (n * rate - 1_000_000_000) <= rate);
    }
}

} // verus!
