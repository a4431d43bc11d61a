use wsblast::cli::{OutputFormat, TestMode};
use wsblast::config::{Decimal, LoadTestConfig, PayloadConfig, SloThresholds, Threshold};
use wsblast::metrics::{AggregatedMetrics, LatencyStats};
use wsblast::report::{evaluate_slos, exit_code, format_us, render_markdown_report, render_report, SloCheck, SloEvaluation};
use wsblast::terminal::render_text_report;
use wsblast::time::Duration;

fn empty_metrics(elapsed: Duration) -> AggregatedMetrics {
    AggregatedMetrics::merge(Vec::new(), elapsed, 0, |_h| LatencyStats::empty())
}

fn config(format: OutputFormat) -> LoadTestConfig {
    LoadTestConfig {
        target_url: "ws://127.0.0.1:9001/".to_string(),
        connections: 4,
        ramp_rate: 0,
        duration: Duration::from_secs(10),
        max_requests: None,
        rate_per_conn: 0,
        payload: PayloadConfig::from_text("ping".to_string()),
        headers: Vec::new(),
        subprotocol: None,
        mode: TestMode::Echo,
        connect_timeout: Duration::from_secs(5),
        message_timeout: Duration::from_secs(5),
        ping_interval: Duration::zero(),
        slo: SloThresholds::default(),
        output_format: format,
        output_path: None,
        tui: false,
        no_progress: true,
    }
}

#[test]
fn format_us_units_and_rounding() {
    assert_eq!(format_us(0), "0 µs");
    assert_eq!(format_us(999), "999 µs");
    assert_eq!(format_us(1_000), "1.00 ms");
    assert_eq!(format_us(1_500), "1.50 ms");
    assert_eq!(format_us(1_125), "1.12 ms");
    assert_eq!(format_us(1_015), "1.01 ms");
    assert_eq!(format_us(999_999), "1000.00 ms");
    assert_eq!(format_us(1_000_000), "1.000 s");
    assert_eq!(format_us(1_234_567), "1.235 s");
    assert_eq!(format_us(2_500_000), "2.500 s");
}

#[test]
fn slo_evaluation_passes_and_fails_by_threshold() {
    let mut m = empty_metrics(Duration::from_secs(1));
    m.message_rtt.p50_us = 800;
    m.message_rtt.p99_us = 5_000;
    let slo = SloThresholds {
        max_p50: Some(Duration::from_millis(1)),
        max_p95: None,
        max_p99: Some(Duration::from_millis(2)),
        max_p999: None,
        max_error_rate: Decimal::parse("0.01"),
        min_throughput: Threshold::parse("10"),
    };
    let eval = evaluate_slos(&slo, &m);
    assert_eq!(eval.checks.len(), 4);
    assert_eq!(eval.checks[0].name, "Latency p50");
    assert_eq!(eval.checks[0].target, "<= 1ms");
    assert_eq!(eval.checks[0].actual, "800µs");
    assert!(eval.checks[0].passed);
    assert_eq!(eval.checks[1].name, "Latency p99");
    assert!(!eval.checks[1].passed);
    assert_eq!(eval.checks[2].name, "Error Rate");
    assert_eq!(eval.checks[2].target, "<= 1.00%");
    assert_eq!(eval.checks[2].actual, "0.00%");
    assert!(eval.checks[2].passed);
    assert_eq!(eval.checks[3].name, "Throughput (msg/s)");
    assert_eq!(eval.checks[3].target, ">= 10.0");
    assert_eq!(eval.checks[3].actual, "0.0");
    assert!(!eval.checks[3].passed);
    assert!(!eval.passed);
}

#[test]
fn slo_evaluation_without_objectives_passes() {
    let m = empty_metrics(Duration::from_secs(1));
    let eval = evaluate_slos(&SloThresholds::default(), &m);
    assert!(eval.checks.is_empty());
    assert!(eval.passed);
}

#[test]
fn markdown_report_sections() {
    let m = empty_metrics(Duration::from_millis(1500));
    let eval = SloEvaluation {
        passed: true,
        checks: vec![SloCheck {
            name: "Latency p50".to_string(),
            target: "<= 1ms".to_string(),
            actual: "0ns".to_string(),
            passed: true,
        }],
    };
    let md = render_markdown_report(&config(OutputFormat::Markdown), &m, &eval);
    assert!(md.starts_with("# `wsblast` WebSocket Benchmark Report\n\n"));
    assert!(md.contains("- **Target:** `ws://127.0.0.1:9001/`\n"));
    assert!(md.contains("- **Concurrency:** `4` workers\n"));
    assert!(md.contains("- **Duration:** `1.50s`\n"));
    assert!(md.contains("- **Error Rate:** `0.00%`\n\n"));
    assert!(md.contains("### Latency Distribution"));
    assert!(md.contains("| **p50** | 0 µs | 0 µs |\n"));
    assert!(md.contains("### SLO Gate Evaluation"));
    assert!(md.contains("| Latency p50 | `<= 1ms` | `0ns` | **✅ PASS** |\n"));
}

#[test]
fn markdown_report_omits_objectives_when_none() {
    let m = empty_metrics(Duration::from_secs(2));
    let eval = SloEvaluation { passed: true, checks: Vec::new() };
    let md = render_markdown_report(&config(OutputFormat::Markdown), &m, &eval);
    assert!(!md.contains("SLO Gate Evaluation"));
    assert!(md.ends_with("|\n\n"));
}

#[test]
fn text_report_tables_and_verdict() {
    let m = empty_metrics(Duration::from_secs(2));
    let eval = SloEvaluation {
        passed: false,
        checks: vec![SloCheck {
            name: "Error Rate".to_string(),
            target: "<= 1.00%".to_string(),
            actual: "5.00%".to_string(),
            passed: false,
        }],
    };
    let text = render_text_report(&config(OutputFormat::Text), &m, &eval);
    assert!(text.starts_with('\n'));
    assert!(text.contains("WebSocket Benchmark Summary"));
    assert!(text.contains("Target URL"));
    assert!(text.contains("Unthrottled"));
    assert!(text.contains("Echo"));
    assert!(text.contains("p50 (Median)"));
    assert!(text.contains("FAILED"));
    assert!(text.ends_with("One or more SLO thresholds breached!\n"));
}

#[test]
fn render_report_dispatches_on_format() {
    let m = empty_metrics(Duration::from_secs(2));
    let eval = SloEvaluation { passed: true, checks: Vec::new() };
    let json = render_report(&config(OutputFormat::Json), &m, &eval, || "{}".to_string());
    assert_eq!(json, "{}");
    let md = render_report(&config(OutputFormat::Markdown), &m, &eval, || "{}".to_string());
    assert!(md.starts_with("# `wsblast`"));
}

#[test]
fn exit_codes_follow_gate_and_connectivity() {
    let mut m = empty_metrics(Duration::from_secs(1));
    let pass = SloEvaluation { passed: true, checks: Vec::new() };
    let fail = SloEvaluation { passed: false, checks: Vec::new() };
    assert_eq!(exit_code(&pass, &m), 0);
    assert_eq!(exit_code(&fail, &m), 2);
    m.total_connections_attempted = 5;
    m.total_connections_established = 0;
    assert_eq!(exit_code(&pass, &m), 1);
    assert_eq!(exit_code(&fail, &m), 2);
    m.total_connections_established = 1;
    assert_eq!(exit_code(&pass, &m), 0);
}

#[test]
fn error_rate_is_shown_as_a_percentage() {
    let live = wsblast::metrics::LiveMetrics::new();
    let mut w = wsblast::metrics::WorkerMetrics::new(std::sync::Arc::clone(&live));
    w.record_message_sent(1);
    w.record_message_sent(1);
    w.record_error(wsblast::error::ErrorCategory::Timeout);
    let m = AggregatedMetrics::merge(vec![w], Duration::from_secs(1), 1, |_h| LatencyStats::empty());
    let eval = SloEvaluation { passed: true, checks: Vec::new() };
    let md = render_markdown_report(&config(OutputFormat::Markdown), &m, &eval);
    assert!(md.contains("- **Error Rate:** `33.33%`\n\n"));
}

#[test]
fn text_report_shows_table_cells() {
    let m = empty_metrics(Duration::from_secs(1));
    let eval = evaluate_slos(&SloThresholds::default(), &m);
    let out = render_text_report(&config(OutputFormat::Text), &m, &eval);
    assert!(out.contains("Unthrottled"));
    assert!(out.contains("0/0"));
    assert!(out.contains("0 µs"));
    assert!(!out.contains("SLO Objective"));
    assert!(!out.contains("[PASS]"));
    assert!(!out.contains("[FAIL]"));
    assert!(!out.contains("Error Taxonomy Category"));
}

#[test]
fn empty_histograms_summarise_to_zero() {
    let m = AggregatedMetrics::merge(Vec::new(), Duration::from_secs(1), 4, |_h| LatencyStats { count: 7, p99_us: 9, ..LatencyStats::empty() });
    assert_eq!(m.total_connections_failed, 4);
    assert_eq!(m.handshake_latency, LatencyStats::empty());
    assert_eq!(m.message_rtt.p99_us, 0);
}

#[test]
fn error_rate_gate_compares_binary64_values() {
    let live = wsblast::metrics::LiveMetrics::new();
    let mut w = wsblast::metrics::WorkerMetrics::new(std::sync::Arc::clone(&live));
    w.record_message_sent(1);
    w.record_message_sent(1);
    w.record_error(wsblast::error::ErrorCategory::Timeout);
    let m = AggregatedMetrics::merge(vec![w], Duration::from_secs(1), 1, |_h| LatencyStats::empty());
    let gate = |text: &str| {
        let slo = SloThresholds { max_error_rate: Decimal::parse(text), ..SloThresholds::default() };
        evaluate_slos(&slo, &m).passed
    };
    assert!(gate("0.3333333333333333"));
    assert!(gate("0.33333333333333331"));
    assert!(gate("0.34"));
    assert!(!gate("0.3333333333333332"));
    assert!(!gate("0.333333333333333"));
    assert!(!gate("0"));
}

#[test]
fn special_throughput_thresholds() {
    let m = empty_metrics(Duration::from_secs(1));
    let check = |text: &str| {
        let slo = SloThresholds { min_throughput: Threshold::parse(text), ..SloThresholds::default() };
        let eval = evaluate_slos(&slo, &m);
        (eval.checks[0].target.clone(), eval.passed)
    };
    assert_eq!(check("inf"), (">= inf".to_string(), false));
    assert_eq!(check("-inf"), (">= -inf".to_string(), true));
    assert_eq!(check("NaN"), (">= NaN".to_string(), false));
    assert_eq!(check("Infinity"), (">= inf".to_string(), false));
    assert_eq!(check("0"), (">= 0.0".to_string(), true));
    assert!(Threshold::parse("infinit").is_none());
}

#[test]
fn text_report_rows_are_drawn_one_per_line() {
    let m = empty_metrics(Duration::from_secs(1));
    let eval = evaluate_slos(&SloThresholds::default(), &m);
    let out = render_text_report(&config(OutputFormat::Text), &m, &eval);
    let p50 = out.lines().find(|l| l.contains("p50")).expect("a p50 row");
    let label_at = p50.find("p50").unwrap();
    assert!(p50[label_at..].contains("0 µs"));
    assert!(p50.starts_with('│'));
    assert!(out.lines().any(|l| !l.is_empty() && l.chars().all(|c| "─═╌╞╪╡┼├┤┬┴┌┐└┘".contains(c))));
}

#[test]
fn throughput_is_computed_in_binary64() {
    let live = wsblast::metrics::LiveMetrics::new();
    let mut w = wsblast::metrics::WorkerMetrics::new(std::sync::Arc::clone(&live));
    w.record_message_recv(1, None);
    let m = AggregatedMetrics::merge(vec![w], Duration::from_secs(3), 1, |_h| LatencyStats::empty());
    let gate = |text: &str| {
        let slo = SloThresholds { min_throughput: Threshold::parse(text), ..SloThresholds::default() };
        evaluate_slos(&slo, &m)
    };
    assert!(gate("0.33333333333333334").passed);
    assert!(gate("0.3333333333333333").passed);
    assert!(!gate("0.33333333333333337").passed);
    assert_eq!(gate("0.1").checks[0].actual, "0.3");
    let live = wsblast::metrics::LiveMetrics::new();
    let mut w = wsblast::metrics::WorkerMetrics::new(std::sync::Arc::clone(&live));
    w.record_message_recv(1, None);
    let m = AggregatedMetrics::merge(vec![w], Duration::from_secs(200), 1, |_h| LatencyStats::empty());
    let eval = SloEvaluation { passed: true, checks: Vec::new() };
    let md = render_markdown_report(&config(OutputFormat::Markdown), &m, &eval);
    assert!(md.contains("- **Throughput:** `0.01` msg/sec"));
}

#[test]
fn threshold_targets_are_written_as_floats() {
    let m = empty_metrics(Duration::from_secs(1));
    let slo = SloThresholds {
        min_throughput: Threshold::parse("0.05"),
        max_error_rate: Decimal::parse("0.07"),
        ..SloThresholds::default()
    };
    let eval = evaluate_slos(&slo, &m);
    assert_eq!(eval.checks[0].target, "<= 7.00%");
    assert_eq!(eval.checks[1].target, ">= 0.1");
    let slo = SloThresholds { min_throughput: Threshold::parse("-0.01"), ..SloThresholds::default() };
    assert_eq!(evaluate_slos(&slo, &m).checks[0].target, ">= -0.0");
}
