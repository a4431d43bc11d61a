//! SLO gating and report rendering.

use vstd::prelude::*;
use crate::cli::OutputFormat;
use crate::config::{Decimal, LoadTestConfig, SloThresholds, Threshold, ThresholdValue};
use crate::metrics::{metrics_wf, AggregatedMetrics, LatencyStats};
use crate::ratio::{frac_le, frac_le_exec, Ratio};
use crate::text::{
    decimal, decimal_chars, fixed_point, pow10, pow10_u128, push_chars, push_decimal,
    push_fixed_point, push_str, string_of,
};
use crate::time::{duration_debug, Duration};
use crate::rate::{binary64_of_fraction, binary64_of_fraction_of, b64_fixed, decimal_rounds_to_at_most, normal_or_zero, pow2_u128, push_b64_fixed, report_rate, report_rate_of};
use crate::binary64::{lemma_pow2_positive, binary64_div, binary64_quotient_of, lemma_pow2_add, lemma_pow2_mono, pow2, binary64_of_int, binary64_of_u64, binary64_percent_text, binary64_quotient_fixed, lemma_pow2_values, push_binary64_percent, push_binary64_quotient};

verus! {

/// Outcome of one service level objective.
#[derive(Debug, Clone)]
pub struct SloCheck {
    pub name: String,
    pub target: String,
    pub actual: String,
    pub passed: bool,
}

/// Outcome of all configured objectives: passed when every check passed.
#[derive(Debug, Clone)]
pub struct SloEvaluation {
    pub passed: bool,
    pub checks: Vec<SloCheck>,
}

impl View for SloCheck {
    type V = (Seq<char>, Seq<char>, Seq<char>, bool);

    open spec fn view(&self) -> (Seq<char>, Seq<char>, Seq<char>, bool) {
        (self.name@, self.target@, self.actual@, self.passed)
    }
}

/// The checks as `(name, target, actual, passed)`.
pub open spec fn checks_view(cs: Seq<SloCheck>) -> Seq<(Seq<char>, Seq<char>, Seq<char>, bool)> {
    cs.map_values(|c: SloCheck| c@)
}

/// The binary64 value nearest to `x / y` (ties to even) is at least the
/// positive binary64 value `m / 2^s`, for `2^52 <= m <= 2^53` and `x / y`
/// within the range of normal binary64 values: `x / y` reaches the midpoint
/// between `m / 2^s` and the binary64 value just below it, and passes it
/// where a tie there would round down (an odd significand).
pub open spec fn rounds_to_at_least(x: nat, y: nat, m: nat, s: nat) -> bool {
    if m == pow2(53) {
        frac_le((pow2(54) - 1) as nat, pow2(s + 1), x, y)
    } else if m == pow2(52) {
        frac_le((pow2(54) - 1) as nat, pow2(s + 2), x, y)
    } else if m % 2 == 0 {
        frac_le((2 * m - 1) as nat, pow2(s + 1), x, y)
    } else {
        !frac_le(x, y, (2 * m - 1) as nat, pow2(s + 1))
    }
}

/// The error rate `r`, computed in binary64 (errors and operations each
/// converted, then divided), is at most the threshold `d` read as binary64.
pub open spec fn ratio_le_decimal(r: Ratio, d: (bool, nat, nat)) -> bool {
    if r.num == 0 {
        !d.0 || d.1 == 0
    } else if d.0 {
        false
    } else {
        let (m, s) = binary64_div(binary64_of_int(r.num as nat), binary64_of_int(r.den as nat));
        rounds_to_at_least(d.1, pow10(d.2), m, s)
    }
}

/// The decimal `d` is at most `r`.
pub open spec fn decimal_le_ratio(d: (bool, nat, nat), r: Ratio) -> bool {
    if d.0 {
        true
    } else {
        frac_le(d.1, pow10(d.2), r.num as nat, r.den as nat)
    }
}

/// The decimal `d` read as binary64 (nearest, ties to even), then
/// multiplied by `factor` in binary64 (`factor` 1 or 100), with `places`
/// digits after the point; a negative `d` (zero too) keeps its sign, as
/// floats are written.
pub open spec fn float_text(d: (bool, nat, nat), factor: nat, places: nat) -> Seq<char> {
    let x = binary64_of_fraction(d.1, pow10(d.2));
    (if d.0 { seq!['-'] } else { Seq::<char>::empty() }) + b64_fixed((binary64_of_int(factor * x.0), x.1), places)
}

/// The check of a latency objective: `actual_us` against `target`.
pub open spec fn latency_check_view(name: Seq<char>, target: Duration, actual_us: u64) -> (Seq<char>, Seq<char>, Seq<char>, bool) {
    (name, "<= "@ + duration_debug(target@, None), duration_debug((actual_us * 1000) as nat, None), actual_us * 1000 <= target@)
}

/// The check of the error-rate objective.
pub open spec fn error_rate_check_view(max: Decimal, rate: Ratio) -> (Seq<char>, Seq<char>, Seq<char>, bool) {
    (
        "Error Rate"@,
        "<= "@ + float_text(max@, 100, 2) + "%"@,
        binary64_percent_text(rate.num as nat, rate.den as nat) + "%"@,
        ratio_le_decimal(rate, max@),
    )
}

/// The throughput `r` (a binary64 value) reaches the threshold `t` read as
/// binary64: a number that rounds to at most `r`, or negative infinity
/// (nothing reaches positive infinity or not a number).
pub open spec fn threshold_reached(t: ThresholdValue, r: (nat, int)) -> bool {
    match t {
        ThresholdValue::Number(n, m, sc) => decimal_rounds_to_at_most((n, m, sc), r),
        ThresholdValue::Infinity(negative) => negative,
        ThresholdValue::NotANumber => false,
    }
}

/// The throughput the objectives are checked against: messages received per
/// second, in binary64 (see [`report_rate`]).
pub open spec fn report_throughput(m: AggregatedMetrics) -> (nat, int) {
    report_rate(m.total_messages_recv as nat, m.elapsed@)
}

/// The threshold `t` with one digit after the point; `inf`, `-inf` and
/// `NaN` for the special values.
pub open spec fn threshold_text(t: ThresholdValue) -> Seq<char> {
    match t {
        ThresholdValue::Number(n, m, sc) => float_text((n, m, sc), 1, 1),
        ThresholdValue::Infinity(negative) => if negative { "-inf"@ } else { "inf"@ },
        ThresholdValue::NotANumber => "NaN"@,
    }
}

/// The check of the throughput objective against the throughput `tput`.
pub open spec fn throughput_check_view(min: Threshold, tput: (nat, int)) -> (Seq<char>, Seq<char>, Seq<char>, bool) {
    (
        "Throughput (msg/s)"@,
        ">= "@ + threshold_text(min@),
        b64_fixed(tput, 1),
        threshold_reached(min@, tput),
    )
}

/// The check for an objective when it is set, none otherwise.
pub open spec fn opt_check<T>(o: Option<T>, f: spec_fn(T) -> (Seq<char>, Seq<char>, Seq<char>, bool)) -> Seq<(Seq<char>, Seq<char>, Seq<char>, bool)> {
    match o {
        Some(x) => seq![f(x)],
        None => Seq::empty(),
    }
}

/// The checks the objectives `slo` call for on `m`, in order: latency p50,
/// p95, p99, p99.9, error rate, throughput, each when configured.
pub open spec fn expected_checks(slo: SloThresholds, m: AggregatedMetrics) -> Seq<(Seq<char>, Seq<char>, Seq<char>, bool)> {
    opt_check(slo.max_p50, |t: Duration| latency_check_view("Latency p50"@, t, m.message_rtt.p50_us))
        + opt_check(slo.max_p95, |t: Duration| latency_check_view("Latency p95"@, t, m.message_rtt.p95_us))
        + opt_check(slo.max_p99, |t: Duration| latency_check_view("Latency p99"@, t, m.message_rtt.p99_us))
        + opt_check(slo.max_p999, |t: Duration| latency_check_view("Latency p99.9"@, t, m.message_rtt.p999_us))
        + opt_check(slo.max_error_rate, |d: Decimal| error_rate_check_view(d, m.error_rate))
        + opt_check(slo.min_throughput, |d: Threshold| throughput_check_view(d, report_throughput(m)))
}

/// The first of the checks `cs` named `name`, as `(name, target, actual,
/// passed)`; none when no check has that name.
pub open spec fn check_named(cs: Seq<(Seq<char>, Seq<char>, Seq<char>, bool)>, name: Seq<char>) -> Option<(Seq<char>, Seq<char>, Seq<char>, bool)>
    decreases cs.len(),
{
    if cs.len() == 0 {
        None
    } else if cs[0].0 == name {
        Some(cs[0])
    } else {
        check_named(cs.drop_first(), name)
    }
}

/// The first check named `name` in two runs of checks is the first one of
/// the first run, or else the first one of the second.
proof fn lemma_check_named_concat(a: Seq<(Seq<char>, Seq<char>, Seq<char>, bool)>, b: Seq<(Seq<char>, Seq<char>, Seq<char>, bool)>)
    ensures
        forall|name: Seq<char>| #[trigger] check_named(a + b, name) == (if check_named(a, name) is Some {
            check_named(a, name)
        } else {
            check_named(b, name)
        }),
    decreases a.len(),
{
    if a.len() == 0 {
        assert(a + b =~= b);
    } else {
        lemma_check_named_concat(a.drop_first(), b);
        assert((a + b).drop_first() =~= a.drop_first() + b);
        assert((a + b)[0] == a[0]);
        assert forall|name: Seq<char>| #[trigger] check_named(a + b, name) == (if check_named(a, name) is Some {
            check_named(a, name)
        } else {
            check_named(b, name)
        }) by {
            assert(check_named(a + b, name) == (if a[0].0 == name {
                Some(a[0])
            } else {
                check_named(a.drop_first() + b, name)
            }));
            assert(check_named(a.drop_first() + b, name) == (if check_named(a.drop_first(), name) is Some {
                check_named(a.drop_first(), name)
            } else {
                check_named(b, name)
            }));
        }
    }
}

/// The first check named `name` among those an objective calls for: its own
/// check when it is set and has that name.
proof fn lemma_check_named_opt<T>(o: Option<T>, f: spec_fn(T) -> (Seq<char>, Seq<char>, Seq<char>, bool))
    ensures
        forall|name: Seq<char>| #[trigger] check_named(opt_check(o, f), name) == (match o {
            Some(x) => if f(x).0 == name { Some(f(x)) } else { None },
            None => None,
        }),
{
    assert forall|name: Seq<char>| #[trigger] check_named(opt_check(o, f), name) == (match o {
        Some(x) => if f(x).0 == name { Some(f(x)) } else { None },
        None => None,
    }) by {
        match o {
            Some(x) => {
                let cs = opt_check(o, f);
                assert(cs.drop_first() =~= Seq::<(Seq<char>, Seq<char>, Seq<char>, bool)>::empty());
                assert(check_named(cs.drop_first(), name) is None);
            },
            None => {},
        }
    }
}

/// The names of the checks differ from one another.
proof fn lemma_check_names_differ()
    ensures
        "Latency p50"@ != "Latency p95"@,
        "Latency p50"@ != "Latency p99"@,
        "Latency p50"@ != "Latency p99.9"@,
        "Latency p95"@ != "Latency p99"@,
        "Latency p95"@ != "Latency p99.9"@,
        "Latency p99"@ != "Latency p99.9"@,
        "Error Rate"@ != "Latency p50"@,
        "Error Rate"@ != "Latency p95"@,
        "Error Rate"@ != "Latency p99"@,
        "Error Rate"@ != "Latency p99.9"@,
        "Throughput (msg/s)"@ != "Latency p50"@,
        "Throughput (msg/s)"@ != "Latency p95"@,
        "Throughput (msg/s)"@ != "Latency p99"@,
        "Throughput (msg/s)"@ != "Latency p99.9"@,
        "Throughput (msg/s)"@ != "Error Rate"@,
{
    reveal_strlit("Latency p50");
    reveal_strlit("Latency p95");
    reveal_strlit("Latency p99");
    reveal_strlit("Latency p99.9");
    reveal_strlit("Error Rate");
    reveal_strlit("Throughput (msg/s)");
    assert("Latency p50"@[9] != "Latency p95"@[9]);
    assert("Latency p50"@[9] != "Latency p99"@[9]);
    assert("Latency p95"@[10] != "Latency p99"@[10]);
    assert("Latency p50"@.len() != "Latency p99.9"@.len());
    assert("Latency p95"@.len() != "Latency p99.9"@.len());
    assert("Latency p99"@.len() != "Latency p99.9"@.len());
    assert("Error Rate"@.len() != "Latency p50"@.len());
    assert("Error Rate"@.len() != "Latency p99.9"@.len());
    assert("Throughput (msg/s)"@.len() != "Latency p50"@.len());
    assert("Throughput (msg/s)"@.len() != "Latency p99.9"@.len());
    assert("Throughput (msg/s)"@.len() != "Error Rate"@.len());
}

/// Each objective is checked against its own measure. A latency objective
/// is checked against the message round-trip time at its percentile: its
/// check shows that many microseconds (as `Duration`'s Debug text) and
/// passes exactly when they are within the target. The error-rate objective
/// is checked against the error rate, the throughput objective against the
/// messages received per second. An objective that is not set has no check.
pub proof fn lemma_objective_checks(slo: SloThresholds, m: AggregatedMetrics)
    ensures
        ({
            let cs = expected_checks(slo, m);
            let r = m.message_rtt;
            &&& slo.max_p50 matches Some(t) ==> check_named(cs, "Latency p50"@) == Some(("Latency p50"@,
                "<= "@ + duration_debug(t@, None), duration_debug((r.p50_us * 1000) as nat, None), r.p50_us * 1000 <= t@))
            &&& slo.max_p95 matches Some(t) ==> check_named(cs, "Latency p95"@) == Some(("Latency p95"@,
                "<= "@ + duration_debug(t@, None), duration_debug((r.p95_us * 1000) as nat, None), r.p95_us * 1000 <= t@))
            &&& slo.max_p99 matches Some(t) ==> check_named(cs, "Latency p99"@) == Some(("Latency p99"@,
                "<= "@ + duration_debug(t@, None), duration_debug((r.p99_us * 1000) as nat, None), r.p99_us * 1000 <= t@))
            &&& slo.max_p999 matches Some(t) ==> check_named(cs, "Latency p99.9"@) == Some(("Latency p99.9"@,
                "<= "@ + duration_debug(t@, None), duration_debug((r.p999_us * 1000) as nat, None), r.p999_us * 1000 <= t@))
            &&& slo.max_error_rate matches Some(d) ==> check_named(cs, "Error Rate"@) == Some(("Error Rate"@,
                "<= "@ + float_text(d@, 100, 2) + "%"@,
                binary64_percent_text(m.error_rate.num as nat, m.error_rate.den as nat) + "%"@,
                ratio_le_decimal(m.error_rate, d@)))
            &&& slo.min_throughput matches Some(d) ==> check_named(cs, "Throughput (msg/s)"@) == Some(("Throughput (msg/s)"@,
                ">= "@ + threshold_text(d@),
                b64_fixed(report_rate(m.total_messages_recv as nat, m.elapsed@), 1),
                threshold_reached(d@, report_rate(m.total_messages_recv as nat, m.elapsed@))))
            &&& slo.max_p50 is None ==> check_named(cs, "Latency p50"@) is None
            &&& slo.max_p95 is None ==> check_named(cs, "Latency p95"@) is None
            &&& slo.max_p99 is None ==> check_named(cs, "Latency p99"@) is None
            &&& slo.max_p999 is None ==> check_named(cs, "Latency p99.9"@) is None
            &&& slo.max_error_rate is None ==> check_named(cs, "Error Rate"@) is None
            &&& slo.min_throughput is None ==> check_named(cs, "Throughput (msg/s)"@) is None
        }),
{
    let c1 = opt_check(slo.max_p50, |t: Duration| latency_check_view("Latency p50"@, t, m.message_rtt.p50_us));
    let c2 = opt_check(slo.max_p95, |t: Duration| latency_check_view("Latency p95"@, t, m.message_rtt.p95_us));
    let c3 = opt_check(slo.max_p99, |t: Duration| latency_check_view("Latency p99"@, t, m.message_rtt.p99_us));
    let c4 = opt_check(slo.max_p999, |t: Duration| latency_check_view("Latency p99.9"@, t, m.message_rtt.p999_us));
    let c5 = opt_check(slo.max_error_rate, |d: Decimal| error_rate_check_view(d, m.error_rate));
    let c6 = opt_check(slo.min_throughput, |d: Threshold| throughput_check_view(d, report_throughput(m)));
    lemma_check_named_opt(slo.max_p50, |t: Duration| latency_check_view("Latency p50"@, t, m.message_rtt.p50_us));
    lemma_check_named_opt(slo.max_p95, |t: Duration| latency_check_view("Latency p95"@, t, m.message_rtt.p95_us));
    lemma_check_named_opt(slo.max_p99, |t: Duration| latency_check_view("Latency p99"@, t, m.message_rtt.p99_us));
    lemma_check_named_opt(slo.max_p999, |t: Duration| latency_check_view("Latency p99.9"@, t, m.message_rtt.p999_us));
    lemma_check_named_opt(slo.max_error_rate, |d: Decimal| error_rate_check_view(d, m.error_rate));
    lemma_check_named_opt(slo.min_throughput, |d: Threshold| throughput_check_view(d, report_throughput(m)));
    lemma_check_named_concat(c1, c2);
    lemma_check_named_concat(c1 + c2, c3);
    lemma_check_named_concat(c1 + c2 + c3, c4);
    lemma_check_named_concat(c1 + c2 + c3 + c4, c5);
    lemma_check_named_concat(c1 + c2 + c3 + c4 + c5, c6);
    lemma_check_names_differ();
    assert(expected_checks(slo, m) == c1 + c2 + c3 + c4 + c5 + c6);
}

/// Appends [`float_text`] of `d`.
fn push_float_text(out: &mut Vec<char>, d: &Decimal, factor: u128, places: u32)
    requires
        factor == 1 || factor == 100,
        places <= 2,
    ensures
        final(out)@ == old(out)@ + float_text(d@, factor as nat, places as nat),
{
    let ghost start = out@;
    let (neg, m, sc) = d.parts();
    if neg {
        push_str(out, "-");
    }
    let ghost mid = out@;
    proof {
        reveal_strlit("-");
    }
    assert(mid =~= start + (if neg { seq!['-'] } else { Seq::<char>::empty() }));
    proof {
        lemma_pow2_values();
        crate::config::lemma_pow10_30();
        crate::text::lemma_pow10_mono(sc as nat, 30);
        crate::text::lemma_pow10_mono(0, sc as nat);
        reveal_with_fuel(pow10, 1);
        assert(pow2(100) == 0x10_0000_0000_0000_0000_0000_0000) by {
            lemma_pow2_add(64, 36);
            assert(pow2(36) == 0x10_0000_0000) by { reveal_with_fuel(pow2, 37); }
        }
        lemma_pow2_mono(100, 120);
        if m >= 1 {
            assert(m * pow2(120) >= pow10(sc as nat)) by (nonlinear_arith)
                requires m >= 1, pow2(120) >= pow2(100), pow2(100) > pow10(30), pow10(30) >= pow10(sc as nat);
        }
    }
    let den = pow10_u128(sc);
    let x = binary64_of_fraction_of(m, den);
    proof {
        assert(pow2(53) == 0x20_0000_0000_0000);
        assert(factor * x.0 <= 100 * 0x20_0000_0000_0000) by (nonlinear_arith)
            requires factor <= 100, x.0 <= 0x20_0000_0000_0000;
    }
    let y = binary64_of_u64((factor * x.0) as u64);
    proof {
        assert(pow2(61) == 0x2000_0000_0000_0000) by { reveal_with_fuel(pow2, 62); }
        crate::binary64::lemma_binary64_of_int_close((factor * x.0) as nat);
    }
    push_b64_fixed(out, (y, x.1), 0, places);
    proof {
        assert(x.1 + 0 == x.1);
    }
    assert(out@ =~= start + float_text(d@, factor as nat, places as nat));
}

/// The check of a latency objective.
fn latency_check(name: &str, target: Duration, actual_us: u64) -> (c: SloCheck)
    ensures
        c@ == latency_check_view(name@, target, actual_us),
{
    let actual = Duration::from_micros(actual_us);
    let passed = actual.le(&target);
    let mut t: Vec<char> = Vec::new();
    push_str(&mut t, "<= ");
    let td = target.debug_text(None);
    push_str(&mut t, td.as_str());
    SloCheck {
        name: name.to_owned(),
        target: string_of(t),
        actual: actual.debug_text(None),
        passed,
    }
}

/// Whether the error rate `r` is within the threshold `d`, both as binary64
/// (see [`ratio_le_decimal`]).
fn ratio_le_decimal_exec(r: &Ratio, d: &Decimal) -> (b: bool)
    requires
        r.den > 0,
        r.num <= r.den <= u64::MAX,
    ensures
        b == ratio_le_decimal(*r, d@),
{
    let (neg, dm, sc) = d.parts();
    if r.num == 0 {
        return !neg || dm == 0;
    }
    if neg {
        return false;
    }
    proof {
        crate::text::lemma_pow10_mono(sc as nat, 30);
        crate::config::lemma_pow10_30();
        crate::text::lemma_pow10_mono(0, sc as nat);
        reveal_with_fuel(pow10, 1);
    }
    let den = pow10_u128(sc);
    let (m, p, s) = binary64_quotient_of(r.num, r.den);
    proof {
        lemma_pow2_values();
        lemma_pow2_mono(s as nat, 116);
        crate::binary64::lemma_pow2_positive(s as nat);
        assert(pow2(53) == 0x20_0000_0000_0000 && pow2(54) == 0x40_0000_0000_0000) by {
            reveal_with_fuel(pow2, 3);
            assert(pow2(53) == 2 * pow2(52));
            assert(pow2(54) == 2 * pow2(53));
        }
        assert(pow2(116) == 0x10_0000_0000_0000_0000_0000_0000_0000) by {
            lemma_pow2_add(64, 52);
        }
        reveal_with_fuel(pow2, 3);
        assert(pow2((s + 1) as nat) == 2 * pow2(s as nat));
        assert(pow2((s + 2) as nat) == 2 * pow2((s + 1) as nat));
    }
    if m == 0x20_0000_0000_0000 {
        frac_le_exec(0x3f_ffff_ffff_ffff, p * 2, dm, den)
    } else if m == 0x10_0000_0000_0000 {
        frac_le_exec(0x3f_ffff_ffff_ffff, p * 4, dm, den)
    } else if m % 2 == 0 {
        frac_le_exec(2 * m - 1, p * 2, dm, den)
    } else {
        !frac_le_exec(dm, den, 2 * m - 1, p * 2)
    }
}

/// Whether `d <= r`.
fn decimal_le_ratio_exec(d: &Decimal, r: &Ratio) -> (b: bool)
    requires
        r.den > 0,
    ensures
        b == decimal_le_ratio(d@, *r),
{
    let (neg, m, sc) = d.parts();
    if neg {
        true
    } else {
        proof {
            crate::text::lemma_pow10_mono(sc as nat, 30);
            crate::config::lemma_pow10_30();
            crate::text::lemma_pow10_mono(0, sc as nat);
            reveal_with_fuel(pow10, 1);
        }
        frac_le_exec(m, pow10_u128(sc), r.num, r.den)
    }
}

/// The check of the error-rate objective.
fn error_rate_check(max: &Decimal, rate: &Ratio) -> (c: SloCheck)
    requires
        rate.den > 0,
        rate.num <= rate.den <= u64::MAX,
    ensures
        c@ == error_rate_check_view(*max, *rate),
{
    let passed = ratio_le_decimal_exec(rate, max);
    let mut t: Vec<char> = Vec::new();
    push_str(&mut t, "<= ");
    push_float_text(&mut t, max, 100, 2);
    push_str(&mut t, "%");
    let mut a: Vec<char> = Vec::new();
    push_binary64_percent(&mut a, rate.num, rate.den);
    push_str(&mut a, "%");
    SloCheck {
        name: String::from_str("Error Rate"),
        target: string_of(t),
        actual: string_of(a),
        passed,
    }
}

/// Whether the decimal `d` read as binary64 is at most the binary64 value
/// `t` (see [`decimal_rounds_to_at_most`]).
fn decimal_rounds_to_at_most_exec(d: &Decimal, t: (u128, i32)) -> (b: bool)
    requires
        normal_or_zero((t.0 as nat, t.1 as int)),
        -42 <= t.1 <= 118,
    ensures
        b == decimal_rounds_to_at_most(d@, (t.0 as nat, t.1 as int)),
{
    let (neg, dm, sc) = d.parts();
    if neg {
        return true;
    }
    if t.0 == 0 {
        return dm == 0;
    }
    proof {
        lemma_pow2_values();
        crate::text::lemma_pow10_mono(sc as nat, 30);
        crate::config::lemma_pow10_30();
        crate::text::lemma_pow10_mono(0, sc as nat);
        reveal_with_fuel(pow10, 1);
        assert(pow2(53) == 2 * pow2(52));
    }
    let den = pow10_u128(sc);
    let (m, s): (u128, i32) = if t.0 == 0x20_0000_0000_0000 { (0x10_0000_0000_0000, t.1 - 1) } else { (t.0, t.1) };
    let e = s + 1;
    let (mn, md): (u128, u128) = if e >= 0 {
        proof {
            lemma_pow2_mono(e as nat, 119);
            lemma_pow2_positive(e as nat);
            assert(pow2(119) < 0x1_0000_0000_0000_0000_0000_0000_0000_0000) by {
                lemma_pow2_add(64, 55);
                assert(pow2(55) == 0x80_0000_0000_0000) by { reveal_with_fuel(pow2, 56); }
            }
        }
        (2 * m + 1, pow2_u128(e as u32))
    } else {
        let f = pow2_u128((-e) as u32);
        proof {
            lemma_pow2_mono((-e) as nat, 42);
            assert(pow2(42) == 0x400_0000_0000) by { reveal_with_fuel(pow2, 43); }
            assert((2 * m + 1) * f <= u128::MAX) by (nonlinear_arith)
                requires m <= 0x20_0000_0000_0000, f <= 0x400_0000_0000;
        }
        ((2 * m + 1) * f, 1)
    };
    if m % 2 == 0 {
        frac_le_exec(dm, den, mn, md)
    } else {
        !frac_le_exec(mn, md, dm, den)
    }
}

/// The check of the throughput objective against the throughput `tput`.
fn throughput_check(min: &Threshold, tput: (u128, i32)) -> (c: SloCheck)
    requires
        normal_or_zero((tput.0 as nat, tput.1 as int)),
        -42 <= tput.1 <= 118,
    ensures
        c@ == throughput_check_view(*min, (tput.0 as nat, tput.1 as int)),
{
    let mut t: Vec<char> = Vec::new();
    push_str(&mut t, ">= ");
    let passed = match min {
        Threshold::Number(d) => {
            push_float_text(&mut t, d, 1, 1);
            decimal_rounds_to_at_most_exec(d, tput)
        },
        Threshold::Infinity { negative } => {
            if *negative {
                push_str(&mut t, "-inf");
            } else {
                push_str(&mut t, "inf");
            }
            *negative
        },
        Threshold::NotANumber => {
            push_str(&mut t, "NaN");
            false
        },
    };
    let mut a: Vec<char> = Vec::new();
    proof {
        crate::binary64::lemma_pow2_values();
    }
    push_b64_fixed(&mut a, tput, 0, 1);
    proof {
        assert(tput.1 + 0 == tput.1);
    }
    SloCheck {
        name: String::from_str("Throughput (msg/s)"),
        target: string_of(t),
        actual: string_of(a),
        passed,
    }
}

/// Every check in `cs` passed.
pub open spec fn all_checks_passed(cs: Seq<SloCheck>) -> bool {
    forall|i: int| 0 <= i < cs.len() ==> (#[trigger] cs[i]).passed
}

/// Appends `c` to `checks`; `all` tells whether every earlier check passed,
/// and the result whether every check now does.
fn record_check(checks: &mut Vec<SloCheck>, all: bool, c: SloCheck) -> (r: bool)
    requires
        all == all_checks_passed(old(checks)@),
    ensures
        final(checks)@ == old(checks)@.push(c),
        r == all_checks_passed(final(checks)@),
{
    let ghost before = checks@;
    let p = c.passed;
    checks.push(c);
    proof {
        let after = checks@;
        if !all {
            let i = choose|i: int| 0 <= i < before.len() && !(#[trigger] before[i]).passed;
            assert(after[i] == before[i]);
        } else if !p {
            assert(after[before.len() as int] == c);
        } else {
            assert forall|i: int| 0 <= i < after.len() implies (#[trigger] after[i]).passed by {
                if i < before.len() {
                    assert(after[i] == before[i]);
                }
            }
        }
    }
    all && p
}

/// Evaluates the configured objectives against the aggregated metrics.
#[verifier::rlimit(40)]
pub fn evaluate_slos(slo: &SloThresholds, metrics: &AggregatedMetrics) -> (res: SloEvaluation)
    requires
        metrics_wf(*metrics),
    ensures
        checks_view(res.checks@) == expected_checks(*slo, *metrics),
        res.passed == all_checks_passed(res.checks@),
        slo.max_p50 matches Some(t) ==> check_named(checks_view(res.checks@), "Latency p50"@) == Some(("Latency p50"@,
            "<= "@ + duration_debug(t@, None), duration_debug((metrics.message_rtt.p50_us * 1000) as nat, None),
            metrics.message_rtt.p50_us * 1000 <= t@)),
        slo.max_p95 matches Some(t) ==> check_named(checks_view(res.checks@), "Latency p95"@) == Some(("Latency p95"@,
            "<= "@ + duration_debug(t@, None), duration_debug((metrics.message_rtt.p95_us * 1000) as nat, None),
            metrics.message_rtt.p95_us * 1000 <= t@)),
        slo.max_p99 matches Some(t) ==> check_named(checks_view(res.checks@), "Latency p99"@) == Some(("Latency p99"@,
            "<= "@ + duration_debug(t@, None), duration_debug((metrics.message_rtt.p99_us * 1000) as nat, None),
            metrics.message_rtt.p99_us * 1000 <= t@)),
        slo.max_p999 matches Some(t) ==> check_named(checks_view(res.checks@), "Latency p99.9"@) == Some(("Latency p99.9"@,
            "<= "@ + duration_debug(t@, None), duration_debug((metrics.message_rtt.p999_us * 1000) as nat, None),
            metrics.message_rtt.p999_us * 1000 <= t@)),
        slo.max_error_rate matches Some(d) ==> check_named(checks_view(res.checks@), "Error Rate"@) == Some(("Error Rate"@,
            "<= "@ + float_text(d@, 100, 2) + "%"@,
            binary64_percent_text(metrics.error_rate.num as nat, metrics.error_rate.den as nat) + "%"@,
            ratio_le_decimal(metrics.error_rate, d@))),
        slo.min_throughput matches Some(d) ==> check_named(checks_view(res.checks@), "Throughput (msg/s)"@) == Some((
            "Throughput (msg/s)"@,
            ">= "@ + threshold_text(d@),
            b64_fixed(report_rate(metrics.total_messages_recv as nat, metrics.elapsed@), 1),
            threshold_reached(d@, report_rate(metrics.total_messages_recv as nat, metrics.elapsed@)))),
        slo.max_p50 is None ==> check_named(checks_view(res.checks@), "Latency p50"@) is None,
        slo.max_p95 is None ==> check_named(checks_view(res.checks@), "Latency p95"@) is None,
        slo.max_p99 is None ==> check_named(checks_view(res.checks@), "Latency p99"@) is None,
        slo.max_p999 is None ==> check_named(checks_view(res.checks@), "Latency p99.9"@) is None,
        slo.max_error_rate is None ==> check_named(checks_view(res.checks@), "Error Rate"@) is None,
        slo.min_throughput is None ==> check_named(checks_view(res.checks@), "Throughput (msg/s)"@) is None,
{
    let mut checks: Vec<SloCheck> = Vec::new();
    let mut all_passed = true;
    assert(all_checks_passed(checks@));
    let ghost m = *metrics;
    let ghost s = *slo;
    if let Some(target) = slo.max_p50 {
        let c = latency_check("Latency p50", target, metrics.message_rtt.p50_us);
        all_passed = record_check(&mut checks, all_passed, c);
    }
    assert(checks_view(checks@) =~= opt_check(s.max_p50, |t: Duration| latency_check_view("Latency p50"@, t, m.message_rtt.p50_us)));
    let ghost e1 = checks_view(checks@);
    if let Some(target) = slo.max_p95 {
        let c = latency_check("Latency p95", target, metrics.message_rtt.p95_us);
        all_passed = record_check(&mut checks, all_passed, c);
    }
    assert(checks_view(checks@) =~= e1 + opt_check(s.max_p95, |t: Duration| latency_check_view("Latency p95"@, t, m.message_rtt.p95_us)));
    let ghost e2 = checks_view(checks@);
    if let Some(target) = slo.max_p99 {
        let c = latency_check("Latency p99", target, metrics.message_rtt.p99_us);
        all_passed = record_check(&mut checks, all_passed, c);
    }
    assert(checks_view(checks@) =~= e2 + opt_check(s.max_p99, |t: Duration| latency_check_view("Latency p99"@, t, m.message_rtt.p99_us)));
    let ghost e3 = checks_view(checks@);
    if let Some(target) = slo.max_p999 {
        let c = latency_check("Latency p99.9", target, metrics.message_rtt.p999_us);
        all_passed = record_check(&mut checks, all_passed, c);
    }
    assert(checks_view(checks@) =~= e3 + opt_check(s.max_p999, |t: Duration| latency_check_view("Latency p99.9"@, t, m.message_rtt.p999_us)));
    let ghost e4 = checks_view(checks@);
    if let Some(max_err) = &slo.max_error_rate {
        let c = error_rate_check(max_err, &metrics.error_rate);
        all_passed = record_check(&mut checks, all_passed, c);
    }
    assert(checks_view(checks@) =~= e4 + opt_check(s.max_error_rate, |d: Decimal| error_rate_check_view(d, m.error_rate)));
    let ghost e5 = checks_view(checks@);
    if let Some(min_tput) = &slo.min_throughput {
        let tput = report_rate_of(metrics.total_messages_recv, metrics.elapsed.as_nanos());
        let c = throughput_check(min_tput, tput);
        all_passed = record_check(&mut checks, all_passed, c);
    }
    assert(checks_view(checks@) =~= e5 + opt_check(s.min_throughput, |d: Threshold| throughput_check_view(d, report_throughput(m))));
    proof {
        lemma_objective_checks(s, m);
    }
    SloEvaluation { passed: all_passed, checks }
}

/// A latency in microseconds as shown in reports: whole microseconds below
/// one millisecond, milliseconds with two decimals below one second, seconds
/// with three decimals above, each quotient taken as a 64-bit float.
pub open spec fn format_us_text(us: u64) -> Seq<char> {
    if us < 1_000 {
        decimal(us as nat) + " µs"@
    } else if us < 1_000_000 {
        binary64_quotient_fixed(us as nat, 1_000, 2) + " ms"@
    } else {
        binary64_quotient_fixed(binary64_of_int(us as nat), 1_000_000, 3) + " s"@
    }
}

/// Appends [`format_us_text`] of `us`.
pub fn push_us(out: &mut Vec<char>, us: u64)
    ensures
        final(out)@ == old(out)@ + format_us_text(us),
{
    proof {
        lemma_pow2_values();
    }
    let ghost start = out@;
    if us < 1_000 {
        push_decimal(out, us as u128);
        push_str(out, " µs");
    } else if us < 1_000_000 {
        push_binary64_quotient(out, us as u128, 1_000, 2);
        push_str(out, " ms");
    } else {
        let x = binary64_of_u64(us);
        push_binary64_quotient(out, x, 1_000_000, 3);
        push_str(out, " s");
    }
    assert(out@ =~= start + format_us_text(us));
}

/// Renders a latency given in microseconds (see [`format_us_text`]).
pub fn format_us(us: u64) -> (s: String)
    ensures
        s@ == format_us_text(us),
{
    let mut out: Vec<char> = Vec::new();
    push_us(&mut out, us);
    assert(out@ =~= format_us_text(us));
    string_of(out)
}

/// One row of the markdown latency table.
pub open spec fn md_latency_row(label: Seq<char>, handshake_us: u64, rtt_us: u64) -> Seq<char> {
    "| **"@ + label + "** | "@ + format_us_text(handshake_us) + " | "@ + format_us_text(rtt_us) + " |\n"@
}

/// The markdown row of one objective's check.
pub open spec fn md_check_row(c: SloCheck) -> Seq<char> {
    "| "@ + c.name@ + " | `"@ + c.target@ + "` | `"@ + c.actual@ + "` | **"@
        + (if c.passed { "✅ PASS"@ } else { "❌ FAIL"@ }) + "** |\n"@
}

/// The markdown rows of the checks `cs`, in order.
pub open spec fn md_check_rows(cs: Seq<SloCheck>) -> Seq<char>
    decreases cs.len(),
{
    if cs.len() == 0 {
        Seq::empty()
    } else {
        md_check_rows(cs.drop_last()) + md_check_row(cs.last())
    }
}

/// The summary lines at the head of the markdown report.
#[verifier::opaque]
pub open spec fn md_summary(target_url: Seq<char>, connections: usize, m: AggregatedMetrics) -> Seq<char> {
    "# `wsblast` WebSocket Benchmark Report\n\n"@
        + "- **Target:** `"@ + target_url + "`\n"@
        + "- **Concurrency:** `"@ + decimal(connections as nat) + "` workers\n"@
        + "- **Duration:** `"@ + duration_debug(m.elapsed@, Some(2)) + "`\n"@
        + "- **Throughput:** `"@ + b64_fixed(report_throughput(m), 2) + "` msg/sec\n"@
        + "- **Error Rate:** `"@ + binary64_percent_text(m.error_rate.num as nat, m.error_rate.den as nat) + "%`\n\n"@
}

/// The latency table of the markdown report.
#[verifier::opaque]
pub open spec fn md_latency(h: LatencyStats, r: LatencyStats) -> Seq<char> {
    "### Latency Distribution\n\n"@
        + "| Percentile | Handshake | Message RTT |\n"@
        + "| :--- | :--- | :--- |\n"@
        + md_latency_row("p50"@, h.p50_us, r.p50_us)
        + md_latency_row("p90"@, h.p90_us, r.p90_us)
        + md_latency_row("p95"@, h.p95_us, r.p95_us)
        + md_latency_row("p99"@, h.p99_us, r.p99_us)
        + md_latency_row("p99.9"@, h.p999_us, r.p999_us)
        + md_latency_row("Max"@, h.max_us, r.max_us) + "\n"@
}

/// The objectives table of the markdown report; empty when no objective is set.
pub open spec fn md_slo(checks: Seq<SloCheck>) -> Seq<char> {
    if checks.len() == 0 {
        Seq::empty()
    } else {
        "### SLO Gate Evaluation\n\n"@
            + "| Metric | Target | Actual | Status |\n"@
            + "| :--- | :--- | :--- | :--- |\n"@
            + md_check_rows(checks)
    }
}

/// The markdown report.
pub open spec fn markdown_report(target_url: Seq<char>, connections: usize, m: AggregatedMetrics, slo: SloEvaluation) -> Seq<char> {
    md_summary(target_url, connections, m) + md_latency(m.handshake_latency, m.message_rtt) + md_slo(slo.checks@)
}

/// `piece` occurs in `text`.
pub open spec fn contains_text(text: Seq<char>, piece: Seq<char>) -> bool {
    exists|a: Seq<char>, b: Seq<char>| #[trigger] a.add(piece).add(b) == text
}

/// A latency row, with its label written out, is the row of that label.
proof fn lemma_md_row_label(label: &str, cell: &str, h_us: u64, r_us: u64)
    requires
        cell@ == "| **"@ + label@ + "** | "@,
    ensures
        md_latency_row(label@, h_us, r_us) == cell@ + format_us_text(h_us) + " | "@ + format_us_text(r_us) + " |\n"@,
{
    assert(md_latency_row(label@, h_us, r_us) =~= cell@ + format_us_text(h_us) + " | "@ + format_us_text(r_us) + " |\n"@);
}

/// The markdown report's latency table has a row for each percentile, p50,
/// p90, p95, p99, p99.9 and the maximum, and each row shows the handshake
/// latency and the message round-trip time at its own percentile.
#[verifier::rlimit(40)]
pub proof fn lemma_markdown_latency_rows(target_url: Seq<char>, connections: usize, m: AggregatedMetrics, slo: SloEvaluation)
    ensures
        ({
            let text = markdown_report(target_url, connections, m, slo);
            let h = m.handshake_latency;
            let r = m.message_rtt;
            &&& contains_text(text, "| **p50** | "@ + format_us_text(h.p50_us) + " | "@ + format_us_text(r.p50_us) + " |\n"@)
            &&& contains_text(text, "| **p90** | "@ + format_us_text(h.p90_us) + " | "@ + format_us_text(r.p90_us) + " |\n"@)
            &&& contains_text(text, "| **p95** | "@ + format_us_text(h.p95_us) + " | "@ + format_us_text(r.p95_us) + " |\n"@)
            &&& contains_text(text, "| **p99** | "@ + format_us_text(h.p99_us) + " | "@ + format_us_text(r.p99_us) + " |\n"@)
            &&& contains_text(text, "| **p99.9** | "@ + format_us_text(h.p999_us) + " | "@ + format_us_text(r.p999_us) + " |\n"@)
            &&& contains_text(text, "| **Max** | "@ + format_us_text(h.max_us) + " | "@ + format_us_text(r.max_us) + " |\n"@)
        }),
{
    let h = m.handshake_latency;
    let r = m.message_rtt;
    let text = markdown_report(target_url, connections, m, slo);
    reveal_strlit("| **");
    reveal_strlit("** | ");
    reveal_strlit("p50");
    reveal_strlit("p90");
    reveal_strlit("p95");
    reveal_strlit("p99");
    reveal_strlit("p99.9");
    reveal_strlit("Max");
    reveal_strlit("| **p50** | ");
    reveal_strlit("| **p90** | ");
    reveal_strlit("| **p95** | ");
    reveal_strlit("| **p99** | ");
    reveal_strlit("| **p99.9** | ");
    reveal_strlit("| **Max** | ");
    assert("| **p50** | "@ =~= "| **"@ + "p50"@ + "** | "@);
    assert("| **p90** | "@ =~= "| **"@ + "p90"@ + "** | "@);
    assert("| **p95** | "@ =~= "| **"@ + "p95"@ + "** | "@);
    assert("| **p99** | "@ =~= "| **"@ + "p99"@ + "** | "@);
    assert("| **p99.9** | "@ =~= "| **"@ + "p99.9"@ + "** | "@);
    assert("| **Max** | "@ =~= "| **"@ + "Max"@ + "** | "@);
    lemma_md_row_label("p50", "| **p50** | ", h.p50_us, r.p50_us);
    lemma_md_row_label("p90", "| **p90** | ", h.p90_us, r.p90_us);
    lemma_md_row_label("p95", "| **p95** | ", h.p95_us, r.p95_us);
    lemma_md_row_label("p99", "| **p99** | ", h.p99_us, r.p99_us);
    lemma_md_row_label("p99.9", "| **p99.9** | ", h.p999_us, r.p999_us);
    lemma_md_row_label("Max", "| **Max** | ", h.max_us, r.max_us);
    let row1 = md_latency_row("p50"@, h.p50_us, r.p50_us);
    let row2 = md_latency_row("p90"@, h.p90_us, r.p90_us);
    let row3 = md_latency_row("p95"@, h.p95_us, r.p95_us);
    let row4 = md_latency_row("p99"@, h.p99_us, r.p99_us);
    let row5 = md_latency_row("p99.9"@, h.p999_us, r.p999_us);
    let row6 = md_latency_row("Max"@, h.max_us, r.max_us);
    let pre = md_summary(target_url, connections, m) + "### Latency Distribution\n\n"@
        + "| Percentile | Handshake | Message RTT |\n"@ + "| :--- | :--- | :--- |\n"@;
    let post = "\n"@ + md_slo(slo.checks@);
    reveal(md_latency);
    assert(text =~= pre + row1 + row2 + row3 + row4 + row5 + row6 + post);
    assert(pre.add(row1).add(row2 + row3 + row4 + row5 + row6 + post) == text);
    assert((pre + row1).add(row2).add(row3 + row4 + row5 + row6 + post) == text);
    assert((pre + row1 + row2).add(row3).add(row4 + row5 + row6 + post) == text);
    assert((pre + row1 + row2 + row3).add(row4).add(row5 + row6 + post) == text);
    assert((pre + row1 + row2 + row3 + row4).add(row5).add(row6 + post) == text);
    assert((pre + row1 + row2 + row3 + row4 + row5).add(row6).add(post) == text);
}

/// The rows of two runs of checks, one after the other, are the rows of the
/// first run followed by those of the second.
pub proof fn lemma_md_check_rows_concat(a: Seq<SloCheck>, b: Seq<SloCheck>)
    ensures
        md_check_rows(a + b) == md_check_rows(a) + md_check_rows(b),
    decreases b.len(),
{
    if b.len() == 0 {
        assert(a + b =~= a);
    } else {
        lemma_md_check_rows_concat(a, b.drop_last());
        assert((a + b).drop_last() =~= a + b.drop_last());
        assert((a + b).last() == b.last());
    }
}

/// The summary lines open with the report's heading.
proof fn lemma_md_summary_heading(target_url: Seq<char>, connections: usize, m: AggregatedMetrics)
    ensures
        md_summary(target_url, connections, m).len() >= "# `wsblast` WebSocket Benchmark Report\n\n"@.len(),
        md_summary(target_url, connections, m).subrange(0, "# `wsblast` WebSocket Benchmark Report\n\n"@.len() as int)
            == "# `wsblast` WebSocket Benchmark Report\n\n"@,
{
    let heading = "# `wsblast` WebSocket Benchmark Report\n\n"@;
    let rest = "- **Target:** `"@ + target_url + "`\n"@
        + "- **Concurrency:** `"@ + decimal(connections as nat) + "` workers\n"@
        + "- **Duration:** `"@ + duration_debug(m.elapsed@, Some(2)) + "`\n"@
        + "- **Throughput:** `"@ + b64_fixed(report_throughput(m), 2) + "` msg/sec\n"@
        + "- **Error Rate:** `"@ + binary64_percent_text(m.error_rate.num as nat, m.error_rate.den as nat) + "%`\n\n"@;
    reveal(md_summary);
    assert(md_summary(target_url, connections, m) =~= heading + rest);
    assert((heading + rest).subrange(0, heading.len() as int) =~= heading);
}

/// The markdown report opens with its heading; it ends with the latency
/// table when no objective was checked, and otherwise with the objectives
/// section: its heading, the table head and one row per check, in the order
/// of the checks.
#[verifier::rlimit(40)]
pub proof fn lemma_markdown_layout(target_url: Seq<char>, connections: usize, m: AggregatedMetrics, slo: SloEvaluation)
    ensures
        ({
            let r = markdown_report(target_url, connections, m, slo);
            let heading = "# `wsblast` WebSocket Benchmark Report\n\n"@;
            let head = md_summary(target_url, connections, m) + md_latency(m.handshake_latency, m.message_rtt);
            let cs = slo.checks@;
            &&& r.len() >= heading.len() && r.subrange(0, heading.len() as int) == heading
            &&& cs.len() == 0 ==> r == head
            &&& cs.len() > 0 ==> r == head + "### SLO Gate Evaluation\n\n"@ + "| Metric | Target | Actual | Status |\n"@
                + "| :--- | :--- | :--- | :--- |\n"@ + md_check_rows(cs)
            &&& forall|i: int| 0 <= i < cs.len() ==> md_check_rows(cs) == md_check_rows(cs.take(i))
                + #[trigger] md_check_row(cs[i]) + md_check_rows(cs.skip(i + 1))
        }),
{
    let r = markdown_report(target_url, connections, m, slo);
    let heading = "# `wsblast` WebSocket Benchmark Report\n\n"@;
    let cs = slo.checks@;
    lemma_md_summary_heading(target_url, connections, m);
    let summary = md_summary(target_url, connections, m);
    let tail = md_latency(m.handshake_latency, m.message_rtt) + md_slo(cs);
    assert(r =~= summary + tail);
    assert((summary + tail).subrange(0, heading.len() as int) =~= summary.subrange(0, heading.len() as int));
    if cs.len() == 0 {
        assert(md_slo(cs) == Seq::<char>::empty());
        assert(r =~= md_summary(target_url, connections, m) + md_latency(m.handshake_latency, m.message_rtt));
    }
    assert forall|i: int| 0 <= i < cs.len() implies md_check_rows(cs) == md_check_rows(cs.take(i))
        + #[trigger] md_check_row(cs[i]) + md_check_rows(cs.skip(i + 1)) by {
        lemma_md_check_rows_split(cs, i);
    }
}

/// The rows of the checks are those before check `i`, its own row, and
/// those after it.
proof fn lemma_md_check_rows_split(cs: Seq<SloCheck>, i: int)
    requires
        0 <= i < cs.len(),
    ensures
        md_check_rows(cs) == md_check_rows(cs.take(i)) + md_check_row(cs[i]) + md_check_rows(cs.skip(i + 1)),
{
    assert(cs =~= cs.take(i) + (seq![cs[i]] + cs.skip(i + 1)));
    lemma_md_check_rows_concat(cs.take(i), seq![cs[i]] + cs.skip(i + 1));
    lemma_md_check_rows_concat(seq![cs[i]], cs.skip(i + 1));
    assert(seq![cs[i]].drop_last() =~= Seq::<SloCheck>::empty());
    assert(md_check_rows(seq![cs[i]]) == md_check_rows(Seq::<SloCheck>::empty()) + md_check_row(cs[i]));
    assert(md_check_rows(seq![cs[i]]) =~= md_check_row(cs[i]));
}

fn push_md_latency_row(out: &mut Vec<char>, label: &str, handshake_us: u64, rtt_us: u64)
    ensures
        final(out)@ == old(out)@ + md_latency_row(label@, handshake_us, rtt_us),
{
    let ghost start = out@;
    push_str(out, "| **");
    push_str(out, label);
    push_str(out, "** | ");
    push_us(out, handshake_us);
    push_str(out, " | ");
    push_us(out, rtt_us);
    push_str(out, " |\n");
    assert(out@ =~= start + md_latency_row(label@, handshake_us, rtt_us));
}

fn push_md_check_row(out: &mut Vec<char>, c: &SloCheck)
    ensures
        final(out)@ == old(out)@ + md_check_row(*c),
{
    let ghost start = out@;
    push_str(out, "| ");
    push_str(out, c.name.as_str());
    push_str(out, " | `");
    push_str(out, c.target.as_str());
    push_str(out, "` | `");
    push_str(out, c.actual.as_str());
    push_str(out, "` | **");
    if c.passed {
        push_str(out, "✅ PASS");
    } else {
        push_str(out, "❌ FAIL");
    }
    push_str(out, "** |\n");
    assert(out@ =~= start + md_check_row(*c));
}

fn push_md_summary(out: &mut Vec<char>, config: &LoadTestConfig, metrics: &AggregatedMetrics)
    requires
        metrics_wf(*metrics),
    ensures
        final(out)@ == old(out)@ + md_summary(config.target_url@, config.connections, *metrics),
{
    let ghost start = out@;
    push_str(out, "# `wsblast` WebSocket Benchmark Report\n\n");
    push_str(out, "- **Target:** `");
    push_str(out, config.target_url.as_str());
    push_str(out, "`\n");
    push_str(out, "- **Concurrency:** `");
    push_decimal(out, config.connections as u128);
    push_str(out, "` workers\n");
    push_str(out, "- **Duration:** `");
    let d = metrics.elapsed.debug_text(Some(2));
    push_str(out, d.as_str());
    push_str(out, "`\n");
    push_str(out, "- **Throughput:** `");
    let tput = report_rate_of(metrics.total_messages_recv, metrics.elapsed.as_nanos());
    proof {
        crate::binary64::lemma_pow2_values();
    }
    push_b64_fixed(out, tput, 0, 2);
    push_str(out, "` msg/sec\n");
    push_str(out, "- **Error Rate:** `");
    push_binary64_percent(out, metrics.error_rate.num, metrics.error_rate.den);
    push_str(out, "%`\n\n");
    proof {
        reveal(md_summary);
    }
    assert(out@ =~= start + md_summary(config.target_url@, config.connections, *metrics));
}

fn push_md_latency(out: &mut Vec<char>, h: &LatencyStats, r: &LatencyStats)
    ensures
        final(out)@ == old(out)@ + md_latency(*h, *r),
{
    let ghost start = out@;
    push_str(out, "### Latency Distribution\n\n");
    push_str(out, "| Percentile | Handshake | Message RTT |\n");
    push_str(out, "| :--- | :--- | :--- |\n");
    push_md_latency_row(out, "p50", h.p50_us, r.p50_us);
    push_md_latency_row(out, "p90", h.p90_us, r.p90_us);
    push_md_latency_row(out, "p95", h.p95_us, r.p95_us);
    push_md_latency_row(out, "p99", h.p99_us, r.p99_us);
    push_md_latency_row(out, "p99.9", h.p999_us, r.p999_us);
    push_md_latency_row(out, "Max", h.max_us, r.max_us);
    push_str(out, "\n");
    proof {
        reveal(md_latency);
    }
    assert(out@ =~= start + md_latency(*h, *r));
}

fn push_md_slo(out: &mut Vec<char>, checks: &Vec<SloCheck>)
    ensures
        final(out)@ == old(out)@ + md_slo(checks@),
{
    let ghost start = out@;
    if checks.len() > 0 {
        push_str(out, "### SLO Gate Evaluation\n\n");
        push_str(out, "| Metric | Target | Actual | Status |\n");
        push_str(out, "| :--- | :--- | :--- | :--- |\n");
        let ghost head = out@;
        let mut i: usize = 0;
        while i < checks.len()
            invariant
                i <= checks.len(),
                out@ == head + md_check_rows(checks@.take(i as int)),
            decreases checks.len() - i,
        {
            push_md_check_row(out, &checks[i]);
            proof {
                assert(checks@.take(i + 1).drop_last() =~= checks@.take(i as int));
            }
            i = i + 1;
        }
        assert(checks@.take(i as int) =~= checks@);
    }
    assert(out@ =~= start + md_slo(checks@));
}

/// Renders the report as markdown: summary lines, the latency table and,
/// when objectives are set, their checks.
pub fn render_markdown_report(config: &LoadTestConfig, metrics: &AggregatedMetrics, slo: &SloEvaluation) -> (s: String)
    requires
        metrics_wf(*metrics),
    ensures
        s@ == markdown_report(config.target_url@, config.connections, *metrics, *slo),
        contains_text(s@, "| **p50** | "@ + format_us_text(metrics.handshake_latency.p50_us) + " | "@
            + format_us_text(metrics.message_rtt.p50_us) + " |\n"@),
        contains_text(s@, "| **p90** | "@ + format_us_text(metrics.handshake_latency.p90_us) + " | "@
            + format_us_text(metrics.message_rtt.p90_us) + " |\n"@),
        contains_text(s@, "| **p95** | "@ + format_us_text(metrics.handshake_latency.p95_us) + " | "@
            + format_us_text(metrics.message_rtt.p95_us) + " |\n"@),
        contains_text(s@, "| **p99** | "@ + format_us_text(metrics.handshake_latency.p99_us) + " | "@
            + format_us_text(metrics.message_rtt.p99_us) + " |\n"@),
        contains_text(s@, "| **p99.9** | "@ + format_us_text(metrics.handshake_latency.p999_us) + " | "@
            + format_us_text(metrics.message_rtt.p999_us) + " |\n"@),
        contains_text(s@, "| **Max** | "@ + format_us_text(metrics.handshake_latency.max_us) + " | "@
            + format_us_text(metrics.message_rtt.max_us) + " |\n"@),
{
    let mut out: Vec<char> = Vec::new();
    push_md_summary(&mut out, config, metrics);
    push_md_latency(&mut out, &metrics.handshake_latency, &metrics.message_rtt);
    push_md_slo(&mut out, &slo.checks);
    assert(out@ =~= markdown_report(config.target_url@, config.connections, *metrics, *slo));
    proof {
        lemma_markdown_latency_rows(config.target_url@, config.connections, *metrics, *slo);
    }
    string_of(out)
}

/// Renders the report in the configured format: the terminal report, the
/// JSON document `render_json` produces, or the markdown report.
pub fn render_report<F: FnOnce() -> String>(
    config: &LoadTestConfig,
    metrics: &AggregatedMetrics,
    slo: &SloEvaluation,
    render_json: F,
) -> (r: String)
    requires
        metrics_wf(*metrics),
        render_json.requires(()),
    ensures
        config.output_format == OutputFormat::Text ==> crate::terminal::is_text_report(r@, *config, *metrics, *slo),
        config.output_format == OutputFormat::Json ==> render_json.ensures((), r),
        config.output_format == OutputFormat::Markdown ==> r@ == markdown_report(config.target_url@, config.connections, *metrics, *slo),
{
    match config.output_format {
        OutputFormat::Text => crate::terminal::render_text_report(config, metrics, slo),
        OutputFormat::Json => render_json(),
        OutputFormat::Markdown => render_markdown_report(config, metrics, slo),
    }
}

/// How many objectives `slo` sets.
pub open spec fn objective_count(slo: SloThresholds) -> nat {
    (if slo.max_p50 is Some { 1nat } else { 0 }) + (if slo.max_p95 is Some { 1nat } else { 0 })
        + (if slo.max_p99 is Some { 1nat } else { 0 }) + (if slo.max_p999 is Some { 1nat } else { 0 })
        + (if slo.max_error_rate is Some { 1nat } else { 0 }) + (if slo.min_throughput is Some { 1nat } else { 0 })
}

/// Every objective that is set is checked exactly once: the evaluation has
/// one check per configured objective, and none when no objective is set.
pub proof fn lemma_one_check_per_objective(slo: SloThresholds, m: AggregatedMetrics)
    ensures
        expected_checks(slo, m).len() == objective_count(slo),
{
}

/// The exit status of a finished run: 2 when an objective was breached, 1
/// when connections were attempted and none was established, 0 otherwise.
pub open spec fn exit_status(slo_passed: bool, attempted: u64, established: u64) -> u8 {
    if !slo_passed { 2 } else if attempted > 0 && established == 0 { 1 } else { 0 }
}

/// The exit status of a finished run (see [`exit_status`]).
pub fn exit_code(slo: &SloEvaluation, metrics: &AggregatedMetrics) -> (code: u8)
    ensures
        code == exit_status(slo.passed, metrics.total_connections_attempted, metrics.total_connections_established),
{
    if !slo.passed {
        2
    } else if metrics.total_connections_attempted > 0 && metrics.total_connections_established == 0 {
        1
    } else {
        0
    }
}

} // verus!
