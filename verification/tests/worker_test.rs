use wsblast::error::ErrorCategory;
use wsblast::worker::{categorize_tungstenite_error, echo_step, message_byte_len, pacing_interval, render_template, stream_interval, EchoStep, Frame, IoFailure, TransportFailure};
use wsblast::time::Duration;

#[test]
fn transport_failures_map_to_categories() {
    assert_eq!(categorize_tungstenite_error(&TransportFailure::AddressLookup), ErrorCategory::DnsResolution);
    assert_eq!(categorize_tungstenite_error(&TransportFailure::ConnectionClosed), ErrorCategory::UnexpectedClose);
    assert_eq!(categorize_tungstenite_error(&TransportFailure::AlreadyClosed), ErrorCategory::UnexpectedClose);
    assert_eq!(categorize_tungstenite_error(&TransportFailure::Http(401)), ErrorCategory::HttpUpgradeRejected);
    assert_eq!(categorize_tungstenite_error(&TransportFailure::Http(503)), ErrorCategory::HttpUpgradeRejected);
    assert_eq!(categorize_tungstenite_error(&TransportFailure::Http(302)), ErrorCategory::ProtocolError);
    assert_eq!(categorize_tungstenite_error(&TransportFailure::Io(IoFailure::TimedOut)), ErrorCategory::Timeout);
    assert_eq!(categorize_tungstenite_error(&TransportFailure::Io(IoFailure::ConnectionRefused)), ErrorCategory::TcpConnect);
    assert_eq!(categorize_tungstenite_error(&TransportFailure::Io(IoFailure::ConnectionReset)), ErrorCategory::TcpConnect);
    assert_eq!(categorize_tungstenite_error(&TransportFailure::Io(IoFailure::Other)), ErrorCategory::WriteError);
    assert_eq!(categorize_tungstenite_error(&TransportFailure::Tls), ErrorCategory::TlsHandshake);
    assert_eq!(categorize_tungstenite_error(&TransportFailure::Protocol), ErrorCategory::ProtocolError);
    assert_eq!(categorize_tungstenite_error(&TransportFailure::WriteBufferFull), ErrorCategory::WriteError);
    assert_eq!(categorize_tungstenite_error(&TransportFailure::Other), ErrorCategory::Other);
}

#[test]
fn template_placeholders_are_filled() {
    let t = r#"{"ts":{{timestamp}},"w":{{worker_id}},"seq":{{seq}},"again":{{seq}}}"#;
    assert_eq!(render_template(t, 1700000000123, 3, 42), r#"{"ts":1700000000123,"w":3,"seq":42,"again":42}"#);
    assert_eq!(render_template("{{seq", 1, 2, 3), "{{seq");
    assert_eq!(render_template("{{{{seq}}}}", 1, 2, 3), "{{3}}");
}

#[test]
fn frame_lengths_count_payload_bytes() {
    assert_eq!(message_byte_len(&Frame::Text("héllo".to_string())), 6);
    assert_eq!(message_byte_len(&Frame::Binary(vec![0, 1, 2, 3, 4, 5])), 6);
    assert_eq!(message_byte_len(&Frame::Ping(b"hb".to_vec())), 2);
    assert_eq!(message_byte_len(&Frame::Close), 0);
}

#[test]
fn echo_steps() {
    assert!(matches!(echo_step(Frame::Text("abc".to_string())), EchoStep::Reply { bytes: 3, open: true }));
    assert!(matches!(echo_step(Frame::Close), EchoStep::Reply { bytes: 0, open: false }));
    assert!(matches!(echo_step(Frame::Ping(vec![7])), EchoStep::Answer(d) if d == vec![7]));
    assert!(matches!(echo_step(Frame::Pong(vec![])), EchoStep::Wait));
}

#[test]
fn pacing_intervals() {
    assert_eq!(pacing_interval(0), None);
    assert_eq!(pacing_interval(4), Some(Duration::from_millis(250)));
    assert_eq!(pacing_interval(3), Some(Duration::from_nanos(333_333_333)));
    assert_eq!(stream_interval(0), Duration::from_micros(10));
    assert_eq!(stream_interval(1000), Duration::from_millis(1));
}


#[test]
fn static_text_renders_unchanged() {
    let t = r#"{"msg":"no placeholders {{here"}"#;
    assert_eq!(render_template(t, 123, 4, 5), t);
}

#[test]
fn timestamp_placeholder_reads_the_clock() {
    let before = std::time::SystemTime::now().duration_since(std::time::UNIX_EPOCH).unwrap().as_millis();
    let cli = wsblast::cli::Cli {
        url: Some("ws://127.0.0.1:1/".to_string()),
        url_flag: None,
        connections: 1,
        ramp_rate: 0,
        duration: "1s".to_string(),
        requests: None,
        rate: 0,
        payload: Some("{{timestamp}}".to_string()),
        payload_file: None,
        binary: false,
        headers: Vec::new(),
        subprotocol: None,
        mode: wsblast::cli::TestMode::Echo,
        connect_timeout: "1s".to_string(),
        message_timeout: "1s".to_string(),
        ping_interval: "0s".to_string(),
        max_p50: None,
        max_p95: None,
        max_p99: None,
        max_p999: None,
        max_error_rate: None,
        min_throughput: None,
        format: wsblast::cli::OutputFormat::Text,
        output_file: None,
        tui: false,
        no_progress: true,
    };
    let config = std::sync::Arc::new(wsblast::config::LoadTestConfig::from_cli(cli, None).unwrap());
    let runner = wsblast::runner::Runner::new((*config).clone());
    let s = wsblast::worker::WorkerSession::new(0, config, runner.cancel_token(), wsblast::metrics::WorkerMetrics::new(runner.live_metrics()));
    match s.render_payload(0) {
        Frame::Text(t) => {
            let ms: u128 = t.parse().unwrap();
            assert!(ms >= before);
        }
        _ => panic!("expected a text frame"),
    }
}
