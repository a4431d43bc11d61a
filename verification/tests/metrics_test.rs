use std::sync::Arc;
use wsblast::tui::TuiApp;
use wsblast::error::ErrorCategory;
use wsblast::metrics::{AggregatedMetrics, LatencyStats, LiveMetrics, WorkerMetrics};
use wsblast::runner::Runner;
use wsblast::time::Duration;
use wsblast::worker::{Flow, Frame, TransportFailure, WorkerSession};

fn stats_of_count(h: &wsblast::hdr::LatencyHistogram) -> LatencyStats {
    let mut s = LatencyStats::empty();
    s.count = h.histogram.len();
    s
}

#[test]
fn worker_counters_and_merge_totals() {
    let live = LiveMetrics::new();
    let mut a = WorkerMetrics::new(Arc::clone(&live));
    a.record_handshake(Duration::from_millis(3));
    a.record_message_sent(10);
    a.record_message_recv(10, Some(Duration::from_micros(250)));
    a.record_error(ErrorCategory::Timeout);
    let mut b = WorkerMetrics::new(Arc::clone(&live));
    b.record_connection_failed(ErrorCategory::TcpConnect);
    b.record_message_sent(5);

    let snap = live.snapshot();
    assert_eq!(snap.messages_sent, 2);
    assert_eq!(snap.bytes_sent, 15);
    assert_eq!(snap.connections_established, 1);
    assert_eq!(snap.connections_failed, 1);
    assert_eq!(snap.total_errors, 2);

    let m = AggregatedMetrics::merge(vec![a, b], Duration::from_secs(2), 3, stats_of_count);
    assert_eq!(m.total_connections_attempted, 3);
    assert_eq!(m.total_connections_established, 1);
    assert_eq!(m.total_connections_failed, 2);
    assert_eq!(m.total_messages_sent, 2);
    assert_eq!(m.total_messages_recv, 1);
    assert_eq!(m.total_bytes_sent, 15);
    assert_eq!(m.total_bytes_recv, 10);
    assert_eq!(m.handshake_latency.count, 1);
    assert_eq!(m.message_rtt.count, 1);
    assert_eq!(m.error_rate.num * 4, m.error_rate.den * 2);
    assert_eq!(m.error_breakdown.get(&ErrorCategory::Timeout), Some(1));
    assert_eq!(m.error_breakdown.get(&ErrorCategory::TcpConnect), Some(1));
    assert_eq!(m.error_breakdown.get(&ErrorCategory::Other), None);
    assert_eq!(m.error_breakdown.total(), 2);
}

#[test]
fn error_category_labels() {
    assert_eq!(ErrorCategory::HttpUpgradeRejected.label(), "HTTP Upgrade Rejected");
    assert_eq!(ErrorCategory::UnexpectedClose.label(), "Unexpected Close");
    assert_eq!(ErrorCategory::from_index(ErrorCategory::Timeout.index()), ErrorCategory::Timeout);
}

#[test]
fn session_events_update_metrics() {
    let config = wsblast::config::LoadTestConfig::from_cli(
        wsblast::cli::Cli {
            url: Some("ws://127.0.0.1:1/".to_string()),
            url_flag: None,
            connections: 1,
            ramp_rate: 0,
            duration: "1s".to_string(),
            requests: None,
            rate: 0,
            payload: Some("seq={{seq}} w={{worker_id}}".to_string()),
            payload_file: None,
            binary: false,
            headers: vec!["X-Test: yes".to_string()],
            subprotocol: Some("graphql-ws".to_string()),
            mode: wsblast::cli::TestMode::Echo,
            connect_timeout: "1s".to_string(),
            message_timeout: "1s".to_string(),
            ping_interval: "0s".to_string(),
            max_p50: None,
            max_p95: None,
            max_p99: None,
            max_p999: None,
            max_error_rate: None,
            min_throughput: None,
            format: wsblast::cli::OutputFormat::Text,
            output_file: None,
            tui: false,
            no_progress: true,
        },
        None,
    )
    .unwrap();
    let runner = Runner::new(config);
    let mut s = WorkerSession::new(7, Arc::clone(&runner.config), runner.cancel_token(), WorkerMetrics::new(runner.live_metrics()));

    match s.render_payload_at(3, 99) {
        Frame::Text(t) => assert_eq!(t, "seq=3 w=7"),
        _ => panic!("expected a text frame"),
    }
    match s.render_payload(4) {
        Frame::Text(t) => assert_eq!(t, "seq=4 w=7"),
        _ => panic!("expected a text frame"),
    }
    let h = s.handshake_headers();
    assert_eq!(h, vec![
        ("x-test".to_string(), "yes".to_string()),
        ("sec-websocket-protocol".to_string(), "graphql-ws".to_string()),
    ]);

    assert_eq!(s.on_connect(Ok(Duration::from_millis(2))), Flow::Continue);
    assert_eq!(s.on_sent(12, Ok(())), Flow::Continue);
    assert_eq!(s.on_echo(Ok((12, true)), Duration::from_micros(400)), Flow::Continue);
    assert_eq!(s.on_echo(Ok((0, false)), Duration::from_micros(400)), Flow::Stop);
    assert_eq!(s.on_echo(Err(None), Duration::from_micros(400)), Flow::Stop);
    assert_eq!(s.on_inbound(Some(Ok(Frame::Binary(vec![1, 2, 3])))), Flow::Continue);
    assert_eq!(s.on_inbound(Some(Ok(Frame::Pong(vec![])))), Flow::Continue);
    assert_eq!(s.on_inbound(Some(Ok(Frame::Close))), Flow::Stop);
    assert_eq!(s.on_inbound(None), Flow::Stop);
    assert_eq!(s.on_inbound(Some(Err(TransportFailure::Http(500)))), Flow::Stop);
    assert_eq!(s.on_sent(1, Err(TransportFailure::WriteBufferFull)), Flow::Stop);
    s.on_closed();

    assert_eq!(s.metrics.messages_sent, 1);
    assert_eq!(s.metrics.bytes_sent, 12);
    assert_eq!(s.metrics.messages_recv, 3);
    assert_eq!(s.metrics.bytes_recv, 15);
    assert_eq!(s.metrics.errors.get(&ErrorCategory::Timeout), Some(1));
    assert_eq!(s.metrics.errors.get(&ErrorCategory::HttpUpgradeRejected), Some(1));
    assert_eq!(s.metrics.errors.get(&ErrorCategory::WriteError), Some(1));
    assert_eq!(s.metrics.rtt_hist.histogram.len(), 2);
    assert_eq!(s.metrics.handshake_hist.histogram.len(), 1);
}

#[test]
fn failed_connection_is_counted() {
    let live = LiveMetrics::new();
    let cfg = Arc::new(wsblast::config::LoadTestConfig::from_cli(
        wsblast::cli::Cli {
            url: Some("ws://127.0.0.1:1/".to_string()),
            url_flag: None,
            connections: 1,
            ramp_rate: 0,
            duration: "1s".to_string(),
            requests: None,
            rate: 0,
            payload: None,
            payload_file: None,
            binary: false,
            headers: Vec::new(),
            subprotocol: None,
            mode: wsblast::cli::TestMode::Listen,
            connect_timeout: "1s".to_string(),
            message_timeout: "1s".to_string(),
            ping_interval: "0s".to_string(),
            max_p50: None,
            max_p95: None,
            max_p99: None,
            max_p999: None,
            max_error_rate: None,
            min_throughput: None,
            format: wsblast::cli::OutputFormat::Json,
            output_file: None,
            tui: false,
            no_progress: true,
        },
        None,
    )
    .unwrap());
    let runner = Runner::new((*cfg).clone());
    let mut s = WorkerSession::new(0, cfg, runner.cancel_token(), WorkerMetrics::new(Arc::clone(&live)));
    assert_eq!(s.on_connect(Err(Some(TransportFailure::Io(wsblast::worker::IoFailure::ConnectionRefused)))), Flow::Stop);
    assert_eq!(s.on_connect(Err(None)), Flow::Stop);
    assert_eq!(s.metrics.errors.get(&ErrorCategory::TcpConnect), Some(1));
    assert_eq!(s.metrics.errors.get(&ErrorCategory::Timeout), Some(1));
    assert_eq!(live.snapshot().connections_failed, 2);
}

#[test]
fn throughput_history_is_sampled_and_capped() {
    let runner = Runner::new(
        wsblast::config::LoadTestConfig::from_cli(
            wsblast::cli::Cli {
                url: Some("ws://127.0.0.1:1/".to_string()),
                url_flag: None,
                connections: 1,
                ramp_rate: 0,
                duration: "1s".to_string(),
                requests: None,
                rate: 0,
                payload: None,
                payload_file: None,
                binary: false,
                headers: Vec::new(),
                subprotocol: None,
                mode: wsblast::cli::TestMode::Echo,
                connect_timeout: "1s".to_string(),
                message_timeout: "1s".to_string(),
                ping_interval: "0s".to_string(),
                max_p50: None,
                max_p95: None,
                max_p99: None,
                max_p999: None,
                max_error_rate: None,
                min_throughput: None,
                format: wsblast::cli::OutputFormat::Text,
                output_file: None,
                tui: true,
                no_progress: true,
            },
            None,
        )
        .unwrap(),
    );
    let mut app = TuiApp::new(Arc::clone(&runner.config), runner.live_metrics(), runner.cancel_token());
    assert!(!runner.cancel_token.is_cancelled());
    runner.cancel_token().cancel();
    assert!(runner.cancel_token.is_cancelled());
    assert!(app.cancel_token.is_cancelled());
    assert!(!app.sample_after(100_000_000, 10));
    assert!(app.history_samples().is_empty());
    assert!(app.sample_after(500_000_000, 100));
    assert_eq!(app.history_samples(), vec![200]);
    assert!(app.sample_after(2_000_000_000, 50));
    assert_eq!(app.history_samples(), vec![200, 0]);
    for i in 0..150u64 {
        assert!(app.sample_after(1_000_000_000, 50 + i));
    }
    let h = app.history_samples();
    assert_eq!(h.len(), 100);
    assert!(h.iter().all(|&x| x == 1));
}
