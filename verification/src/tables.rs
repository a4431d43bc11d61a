//! The tables of the terminal report, as plain text cells.

use vstd::prelude::*;
use crate::rate::{b64_fixed, push_b64_fixed, report_rate, report_rate_of};
use crate::binary64::{binary64_of_int, binary64_of_u64, binary64_percent_text, lemma_pow2_values};
use crate::cli::TestMode;
use crate::config::LoadTestConfig;
use crate::error::{category_at, category_label, ErrorCategory, CATEGORY_COUNT};
use crate::metrics::{AggregatedMetrics, ErrorBreakdown, LatencyStats};
use crate::report::{format_us_text, push_us, SloCheck};
use crate::metrics::metrics_wf;
use crate::text::{decimal, fixed_point, pow10, push_decimal, push_fixed_point, push_str, string_of};
use crate::time::duration_debug;

verus! {

/// How a cell is highlighted.
#[derive(Debug, Clone, Copy, PartialEq, Eq, Structural)]
pub enum Tone {
    Plain,
    Good,
    Bad,
}

/// A table cell: its text and highlight.
#[derive(Debug, Clone)]
pub struct ReportCell {
    pub text: String,
    pub tone: Tone,
}

impl View for ReportCell {
    type V = (Seq<char>, Tone);

    open spec fn view(&self) -> (Seq<char>, Tone) {
        (self.text@, self.tone)
    }
}

/// A table: a header row and body rows.
#[derive(Debug, Clone)]
pub struct ReportTable {
    pub header: Vec<String>,
    pub rows: Vec<Vec<ReportCell>>,
}

/// The texts of a row of strings.
pub open spec fn texts(v: Seq<String>) -> Seq<Seq<char>> {
    v.map_values(|s: String| s@)
}

/// The cells of a row.
pub open spec fn row_view(r: Seq<ReportCell>) -> Seq<(Seq<char>, Tone)> {
    r.map_values(|c: ReportCell| c@)
}

/// A table as its header texts and its rows of cells.
pub type TableView = (Seq<Seq<char>>, Seq<Seq<(Seq<char>, Tone)>>);

impl View for ReportTable {
    type V = TableView;

    open spec fn view(&self) -> TableView {
        (texts(self.header@), self.rows@.map_values(|r: Vec<ReportCell>| row_view(r@)))
    }
}

/// The tables as their views.
pub open spec fn tables_view(ts: Seq<ReportTable>) -> Seq<TableView> {
    ts.map_values(|t: ReportTable| t@)
}

/// A row of two plain cells.
pub open spec fn plain2(a: Seq<char>, b: Seq<char>) -> Seq<(Seq<char>, Tone)> {
    seq![(a, Tone::Plain), (b, Tone::Plain)]
}

/// A row of three plain cells.
pub open spec fn plain3(a: Seq<char>, b: Seq<char>, c: Seq<char>) -> Seq<(Seq<char>, Tone)> {
    seq![(a, Tone::Plain), (b, Tone::Plain), (c, Tone::Plain)]
}

/// The name of a test mode.
pub open spec fn mode_name(m: TestMode) -> Seq<char> {
    match m {
        TestMode::Echo => "Echo"@,
        TestMode::Stream => "Stream"@,
        TestMode::Listen => "Listen"@,
    }
}

/// How the sending rate is described.
pub open spec fn rate_control_text(rate: u64) -> Seq<char> {
    if rate > 0 { decimal(rate as nat) + " msg/sec per connection"@ } else { "Unthrottled"@ }
}

/// A byte count in mebibytes with two decimals, the count taken as a 64-bit float.
pub open spec fn mebibytes_text(bytes: u64) -> Seq<char> {
    fixed_point(binary64_of_int(bytes as nat), 1_048_576, 2)
}

/// The configuration table.
pub open spec fn config_table(target_url: Seq<char>, connections: usize, rate: u64, mode: TestMode, m: AggregatedMetrics) -> TableView {
    (
        seq!["Configuration Parameter"@, "Value"@],
        seq![
            plain2("Target URL"@, target_url),
            plain2("Connections (Concurrency)"@, decimal(connections as nat)),
            plain2("Elapsed Duration"@, duration_debug(m.elapsed@, Some(2))),
            plain2("Rate Control"@, rate_control_text(rate)),
            plain2("Mode"@, mode_name(mode)),
        ],
    )
}

/// A rate in bytes per second as mebibytes per second: divided by `2^20`,
/// which binary64 does exactly.
pub open spec fn mebibyte_rate(v: (nat, int)) -> (nat, int) {
    (v.0, v.1 + 20)
}

/// The traffic and throughput table.
pub open spec fn traffic_table(m: AggregatedMetrics) -> TableView {
    (
        seq!["Traffic & Throughput Metric"@, "Count / Rate"@],
        seq![
            plain2("Connections Established / Failed"@,
                decimal(m.total_connections_established as nat) + "/"@ + decimal(m.total_connections_failed as nat)),
            plain2("Messages Sent / Received"@,
                decimal(m.total_messages_sent as nat) + " / "@ + decimal(m.total_messages_recv as nat)),
            plain2("Data Transferred (Sent / Recv)"@,
                mebibytes_text(m.total_bytes_sent) + " MB / "@ + mebibytes_text(m.total_bytes_recv) + " MB"@),
            plain2("Throughput (Messages/sec)"@,
                b64_fixed(report_rate(m.total_messages_recv as nat, m.elapsed@), 2) + " msg/sec"@),
            plain2("Bandwidth (Transfer Rate)"@,
                b64_fixed(mebibyte_rate(report_rate((m.total_bytes_sent + m.total_bytes_recv) as nat, m.elapsed@)), 2) + " MB/sec"@),
            plain2("Error Rate"@,
                binary64_percent_text(m.error_rate.num as nat, m.error_rate.den as nat) + "%"@),
        ],
    )
}

/// Minimum, mean and maximum of a latency summary.
pub open spec fn min_mean_max(s: LatencyStats) -> Seq<char> {
    format_us_text(s.min_us) + " / "@ + format_us_text(s.mean_us) + " / "@ + format_us_text(s.max_us)
}

/// The latency table.
pub open spec fn latency_table(h: LatencyStats, r: LatencyStats) -> TableView {
    (
        seq!["Percentile"@, "Handshake Latency"@, "Message RTT Latency"@],
        seq![
            plain3("p50 (Median)"@, format_us_text(h.p50_us), format_us_text(r.p50_us)),
            plain3("p75"@, format_us_text(h.p75_us), format_us_text(r.p75_us)),
            plain3("p90"@, format_us_text(h.p90_us), format_us_text(r.p90_us)),
            plain3("p95"@, format_us_text(h.p95_us), format_us_text(r.p95_us)),
            plain3("p99"@, format_us_text(h.p99_us), format_us_text(r.p99_us)),
            plain3("p99.9"@, format_us_text(h.p999_us), format_us_text(r.p999_us)),
            plain3("Min / Mean / Max"@, min_mean_max(h), min_mean_max(r)),
        ],
    )
}

/// The rows of the error table for the first `k` categories: one per
/// category with failures, in declaration order.
pub open spec fn error_rows(counts: Seq<u64>, k: int) -> Seq<Seq<(Seq<char>, Tone)>>
    decreases k,
{
    if k <= 0 {
        Seq::empty()
    } else if counts[k - 1] > 0 {
        error_rows(counts, k - 1).push(plain2(category_label(category_at(k - 1)), decimal(counts[k - 1] as nat)))
    } else {
        error_rows(counts, k - 1)
    }
}

/// The error table.
pub open spec fn error_table(counts: Seq<u64>) -> TableView {
    (seq!["Error Taxonomy Category"@, "Occurrences"@], error_rows(counts, CATEGORY_COUNT as int))
}

/// The row of one objective's check.
pub open spec fn check_row(c: SloCheck) -> Seq<(Seq<char>, Tone)> {
    seq![
        (c.name@, Tone::Plain),
        (c.target@, Tone::Plain),
        (c.actual@, Tone::Plain),
        if c.passed { ("PASSED"@, Tone::Good) } else { ("FAILED"@, Tone::Bad) },
    ]
}

/// The objectives table.
pub open spec fn slo_table(checks: Seq<SloCheck>) -> TableView {
    (
        seq!["SLO Objective"@, "Target Threshold"@, "Actual Value"@, "Gate Status"@],
        checks.map_values(|c: SloCheck| check_row(c)),
    )
}

/// The tables of the terminal report, in order: configuration, traffic,
/// latency, then errors when any failure was counted and objectives when any
/// is set.
pub open spec fn report_tables_view(config: LoadTestConfig, m: AggregatedMetrics, checks: Seq<SloCheck>) -> Seq<TableView> {
    seq![
        config_table(config.target_url@, config.connections, config.rate_per_conn, config.mode, m),
        traffic_table(m),
        latency_table(m.handshake_latency, m.message_rtt),
    ]
        + (if m.error_breakdown@ =~= Seq::new(CATEGORY_COUNT as nat, |i: int| 0u64) { Seq::empty() } else { seq![error_table(m.error_breakdown@)] })
        + (if checks.len() == 0 { Seq::empty() } else { seq![slo_table(checks)] })
}

fn cell(text: String) -> (c: ReportCell)
    ensures
        c@ == (text@, Tone::Plain),
{
    ReportCell { text, tone: Tone::Plain }
}

fn row2(a: String, b: String) -> (r: Vec<ReportCell>)
    ensures
        row_view(r@) == plain2(a@, b@),
{
    let r = vec![cell(a), cell(b)];
    assert(row_view(r@) =~= plain2(a@, b@));
    r
}

fn row3(a: String, b: String, c: String) -> (r: Vec<ReportCell>)
    ensures
        row_view(r@) == plain3(a@, b@, c@),
{
    let r = vec![cell(a), cell(b), cell(c)];
    assert(row_view(r@) =~= plain3(a@, b@, c@));
    r
}

fn header_of(names: &[&str]) -> (h: Vec<String>)
    ensures
        h@.len() == names@.len(),
        forall|i: int| 0 <= i < names@.len() ==> (#[trigger] h@[i])@ == names@[i]@,
{
    let mut h: Vec<String> = Vec::new();
    let mut i: usize = 0;
    while i < names.len()
        invariant
            i <= names@.len(),
            h@.len() == i,
            forall|j: int| 0 <= j < i ==> (#[trigger] h@[j])@ == names@[j]@,
        decreases names@.len() - i,
    {
        h.push(names[i].to_owned());
        i = i + 1;
    }
    h
}

fn text(s: &str) -> (r: String)
    ensures
        r@ == s@,
{
    s.to_owned()
}

fn decimal_string(n: u64) -> (r: String)
    ensures
        r@ == decimal(n as nat),
{
    let mut v: Vec<char> = Vec::new();
    push_decimal(&mut v, n as u128);
    assert(v@ =~= decimal(n as nat));
    string_of(v)
}

pub(crate) fn push_mebibytes(out: &mut Vec<char>, bytes: u64)
    ensures
        final(out)@ == old(out)@ + mebibytes_text(bytes),
{
    let x = binary64_of_u64(bytes);
    proof {
        reveal_with_fuel(pow10, 3);
        assert(x * pow10(2) <= u128::MAX) by (nonlinear_arith)
            requires x <= 0x1_0000_0000_0000_0000, pow10(2) == 100;
    }
    push_fixed_point(out, x, 1_048_576, 2);
}

fn mode_text(m: TestMode) -> (r: String)
    ensures
        r@ == mode_name(m),
{
    match m {
        TestMode::Echo => text("Echo"),
        TestMode::Stream => text("Stream"),
        TestMode::Listen => text("Listen"),
    }
}

fn config_rows(config: &LoadTestConfig, m: &AggregatedMetrics) -> (t: ReportTable)
    ensures
        t@ == config_table(config.target_url@, config.connections, config.rate_per_conn, config.mode, *m),
{
    let header = header_of(&["Configuration Parameter", "Value"]);
    let mut conns: Vec<char> = Vec::new();
    push_decimal(&mut conns, config.connections as u128);
    let mut rate: Vec<char> = Vec::new();
    if config.rate_per_conn > 0 {
        push_decimal(&mut rate, config.rate_per_conn as u128);
        push_str(&mut rate, " msg/sec per connection");
    } else {
        push_str(&mut rate, "Unthrottled");
    }
    let rows = vec![
        row2(text("Target URL"), config.target_url.clone()),
        row2(text("Connections (Concurrency)"), string_of(conns)),
        row2(text("Elapsed Duration"), m.elapsed.debug_text(Some(2))),
        row2(text("Rate Control"), string_of(rate)),
        row2(text("Mode"), mode_text(config.mode)),
    ];
    let t = ReportTable { header, rows };
    assert(t@.0 =~= config_table(config.target_url@, config.connections, config.rate_per_conn, config.mode, *m).0);
    assert(t@.1 =~= config_table(config.target_url@, config.connections, config.rate_per_conn, config.mode, *m).1);
    t
}

fn traffic_rows(m: &AggregatedMetrics) -> (t: ReportTable)
    requires
        metrics_wf(*m),
    ensures
        t@ == traffic_table(*m),
{
    let header = header_of(&["Traffic & Throughput Metric", "Count / Rate"]);
    let mut conns: Vec<char> = Vec::new();
    push_decimal(&mut conns, m.total_connections_established as u128);
    push_str(&mut conns, "/");
    push_decimal(&mut conns, m.total_connections_failed as u128);
    let mut msgs: Vec<char> = Vec::new();
    push_decimal(&mut msgs, m.total_messages_sent as u128);
    push_str(&mut msgs, " / ");
    push_decimal(&mut msgs, m.total_messages_recv as u128);
    let mut data: Vec<char> = Vec::new();
    push_mebibytes(&mut data, m.total_bytes_sent);
    push_str(&mut data, " MB / ");
    push_mebibytes(&mut data, m.total_bytes_recv);
    push_str(&mut data, " MB");
    let nanos = m.elapsed.as_nanos();
    let mut tput: Vec<char> = Vec::new();
    proof {
        crate::binary64::lemma_pow2_values();
    }
    push_b64_fixed(&mut tput, report_rate_of(m.total_messages_recv, nanos), 0, 2);
    push_str(&mut tput, " msg/sec");
    let mut bw: Vec<char> = Vec::new();
    let brate = report_rate_of(m.total_bytes_sent + m.total_bytes_recv, nanos);
    proof {
        crate::binary64::lemma_pow2_values();
    }
    push_b64_fixed(&mut bw, brate, 20, 2);
    push_str(&mut bw, " MB/sec");
    let mut err: Vec<char> = Vec::new();
    crate::binary64::push_binary64_percent(&mut err, m.error_rate.num, m.error_rate.den);
    push_str(&mut err, "%");
    let rows = vec![
        row2(text("Connections Established / Failed"), string_of(conns)),
        row2(text("Messages Sent / Received"), string_of(msgs)),
        row2(text("Data Transferred (Sent / Recv)"), string_of(data)),
        row2(text("Throughput (Messages/sec)"), string_of(tput)),
        row2(text("Bandwidth (Transfer Rate)"), string_of(bw)),
        row2(text("Error Rate"), string_of(err)),
    ];
    let t = ReportTable { header, rows };
    assert(t@.0 =~= traffic_table(*m).0);
    assert(t@.1 =~= traffic_table(*m).1);
    t
}

fn us_string(us: u64) -> (s: String)
    ensures
        s@ == format_us_text(us),
{
    let mut v: Vec<char> = Vec::new();
    push_us(&mut v, us);
    assert(v@ =~= format_us_text(us));
    string_of(v)
}

fn min_mean_max_string(s: &LatencyStats) -> (r: String)
    ensures
        r@ == min_mean_max(*s),
{
    let mut v: Vec<char> = Vec::new();
    push_us(&mut v, s.min_us);
    push_str(&mut v, " / ");
    push_us(&mut v, s.mean_us);
    push_str(&mut v, " / ");
    push_us(&mut v, s.max_us);
    assert(v@ =~= min_mean_max(*s));
    string_of(v)
}

fn latency_rows(h: &LatencyStats, r: &LatencyStats) -> (t: ReportTable)
    ensures
        t@ == latency_table(*h, *r),
{
    let header = header_of(&["Percentile", "Handshake Latency", "Message RTT Latency"]);
    let rows = vec![
        row3(text("p50 (Median)"), us_string(h.p50_us), us_string(r.p50_us)),
        row3(text("p75"), us_string(h.p75_us), us_string(r.p75_us)),
        row3(text("p90"), us_string(h.p90_us), us_string(r.p90_us)),
        row3(text("p95"), us_string(h.p95_us), us_string(r.p95_us)),
        row3(text("p99"), us_string(h.p99_us), us_string(r.p99_us)),
        row3(text("p99.9"), us_string(h.p999_us), us_string(r.p999_us)),
        row3(text("Min / Mean / Max"), min_mean_max_string(h), min_mean_max_string(r)),
    ];
    let t = ReportTable { header, rows };
    assert(t@.0 =~= latency_table(*h, *r).0);
    assert(t@.1 =~= latency_table(*h, *r).1);
    t
}

fn error_rows_of(b: &ErrorBreakdown) -> (t: ReportTable)
    ensures
        t@ == error_table(b@),
{
    b.check_shape();
    let header = header_of(&["Error Taxonomy Category", "Occurrences"]);
    let mut rows: Vec<Vec<ReportCell>> = Vec::new();
    let mut i: usize = 0;
    while i < CATEGORY_COUNT
        invariant
            i <= CATEGORY_COUNT,
            b@.len() == CATEGORY_COUNT,
            rows@.map_values(|r: Vec<ReportCell>| row_view(r@)) =~= error_rows(b@, i as int),
        decreases CATEGORY_COUNT - i,
    {
        let c = ErrorCategory::from_index(i);
        let n = match b.get(&c) {
            Some(n) => n,
            None => 0,
        };
        assert(n == b@[i as int]) by {
            crate::error::lemma_category_index_roundtrip(c);
        }
        let ghost prev = rows@;
        if n > 0 {
            let r = row2(text(c.label()), decimal_string(n));
            rows.push(r);
            assert(rows@.map_values(|r: Vec<ReportCell>| row_view(r@))
                =~= prev.map_values(|r: Vec<ReportCell>| row_view(r@)).push(plain2(category_label(category_at(i as int)), decimal(n as nat))));
        }
        i = i + 1;
    }
    let t = ReportTable { header, rows };
    assert(t@.0 =~= error_table(b@).0);
    t
}

fn check_cells(c: &SloCheck) -> (r: Vec<ReportCell>)
    ensures
        row_view(r@) == check_row(*c),
{
    let status = if c.passed {
        ReportCell { text: text("PASSED"), tone: Tone::Good }
    } else {
        ReportCell { text: text("FAILED"), tone: Tone::Bad }
    };
    let r = vec![cell(c.name.clone()), cell(c.target.clone()), cell(c.actual.clone()), status];
    assert(row_view(r@) =~= check_row(*c));
    r
}

fn slo_rows(checks: &Vec<SloCheck>) -> (t: ReportTable)
    ensures
        t@ == slo_table(checks@),
{
    let header = header_of(&["SLO Objective", "Target Threshold", "Actual Value", "Gate Status"]);
    let mut rows: Vec<Vec<ReportCell>> = Vec::new();
    let mut i: usize = 0;
    while i < checks.len()
        invariant
            i <= checks@.len(),
            rows@.map_values(|r: Vec<ReportCell>| row_view(r@)) =~= checks@.take(i as int).map_values(|c: SloCheck| check_row(c)),
        decreases checks@.len() - i,
    {
        let r = check_cells(&checks[i]);
        let ghost prev = rows@;
        rows.push(r);
        proof {
            assert(checks@.take(i + 1) =~= checks@.take(i as int).push(checks@[i as int]));
            assert(rows@.map_values(|r: Vec<ReportCell>| row_view(r@))
                =~= prev.map_values(|r: Vec<ReportCell>| row_view(r@)).push(row_view(r@)));
        }
        i = i + 1;
    }
    assert(checks@.take(i as int) =~= checks@);
    let t = ReportTable { header, rows };
    assert(t@.0 =~= slo_table(checks@).0);
    t
}

/// The tables of the terminal report (see [`report_tables_view`]).
pub fn report_tables(config: &LoadTestConfig, metrics: &AggregatedMetrics, checks: &Vec<SloCheck>) -> (ts: Vec<ReportTable>)
    requires
        metrics_wf(*metrics),
    ensures
        tables_view(ts@) == report_tables_view(*config, *metrics, checks@),
{
    let mut ts: Vec<ReportTable> = Vec::new();
    ts.push(config_rows(config, metrics));
    ts.push(traffic_rows(metrics));
    ts.push(latency_rows(&metrics.handshake_latency, &metrics.message_rtt));
    let ghost base = tables_view(ts@);
    metrics.error_breakdown.check_shape();
    let empty = metrics.error_breakdown.is_empty();
    proof {
        let zeros = Seq::new(CATEGORY_COUNT as nat, |i: int| 0u64);
        if empty {
            assert forall|i: int| 0 <= i < CATEGORY_COUNT implies metrics.error_breakdown@[i] == 0u64 by {
                assert(metrics.error_breakdown.count(category_at(i)) == 0);
                crate::error::lemma_category_at_index(i);
            }
            assert(metrics.error_breakdown@ =~= zeros);
        } else {
            let c = choose|c: ErrorCategory| metrics.error_breakdown.count(c) != 0;
            if metrics.error_breakdown@ =~= zeros {
                crate::error::lemma_category_index_roundtrip(c);
                assert(metrics.error_breakdown@[crate::error::category_index(c)] == 0u64);
            }
        }
    }
    if !empty {
        ts.push(error_rows_of(&metrics.error_breakdown));
    }
    if checks.len() > 0 {
        ts.push(slo_rows(checks));
    }
    assert(tables_view(ts@) =~= report_tables_view(*config, *metrics, checks@));
    ts
}

} // verus!
