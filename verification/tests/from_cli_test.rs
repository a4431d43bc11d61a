use wsblast::cli::{Cli, OutputFormat, TestMode};
use wsblast::config::{LoadTestConfig, PayloadConfig};
use wsblast::error::{ConfigError, WsBlastError};
use wsblast::time::Duration;

fn base_cli() -> Cli {
    Cli {
        url: Some("ws://127.0.0.1:9001/ws".to_string()),
        url_flag: None,
        connections: 5,
        ramp_rate: 0,
        duration: "10s".to_string(),
        requests: None,
        rate: 0,
        payload: None,
        payload_file: None,
        binary: false,
        headers: Vec::new(),
        subprotocol: None,
        mode: TestMode::Echo,
        connect_timeout: "5s".to_string(),
        message_timeout: "5s".to_string(),
        ping_interval: "0s".to_string(),
        max_p50: None,
        max_p95: None,
        max_p99: None,
        max_p999: None,
        max_error_rate: None,
        min_throughput: None,
        format: OutputFormat::Text,
        output_file: None,
        tui: false,
        no_progress: false,
    }
}

fn config_error(cli: Cli) -> ConfigError {
    match LoadTestConfig::from_cli(cli, None) {
        Err(WsBlastError::Config(e)) => e,
        other => panic!("expected a configuration error, got {:?}", other.map(|c| c.target_url)),
    }
}

#[test]
fn valid_cli_gives_config() {
    let mut cli = base_cli();
    cli.headers = vec!["Authorization: Bearer a".to_string(), "authorization: Bearer b".to_string()];
    cli.max_p99 = Some("50ms".to_string());
    cli.max_error_rate = Some("0.01".to_string());
    let c = LoadTestConfig::from_cli(cli, None).unwrap();
    assert_eq!(c.target_url, "ws://127.0.0.1:9001/ws");
    assert_eq!(c.connections, 5);
    assert_eq!(c.duration, Duration::from_secs(10));
    assert_eq!(c.headers.len(), 1);
    assert_eq!(c.headers[0].0, "authorization");
    assert_eq!(c.headers[0].1, "Bearer b");
    assert_eq!(c.slo.max_p99, Some(Duration::from_millis(50)));
    assert!(matches!(c.payload, PayloadConfig::DynamicText(_)));
}

#[test]
fn url_flag_is_used_without_positional_url() {
    let mut cli = base_cli();
    cli.url = None;
    cli.url_flag = Some("wss://example.com/stream".to_string());
    let c = LoadTestConfig::from_cli(cli, None).unwrap();
    assert_eq!(c.target_url, "wss://example.com/stream");
}

#[test]
fn missing_url_is_rejected() {
    let mut cli = base_cli();
    cli.url = None;
    match config_error(cli) {
        ConfigError::InvalidUrl(u, m) => {
            assert_eq!(u, "");
            assert_eq!(m, "No target URL provided. Specify target as argument or --url <URL>");
        }
        e => panic!("unexpected {:?}", e),
    }
}

#[test]
fn unparsable_url_is_rejected() {
    let mut cli = base_cli();
    cli.url = Some("not a url".to_string());
    assert!(matches!(config_error(cli), ConfigError::InvalidUrl(u, _) if u == "not a url"));
}

#[test]
fn non_websocket_scheme_is_rejected() {
    let mut cli = base_cli();
    cli.url = Some("http://example.com".to_string());
    assert!(matches!(config_error(cli), ConfigError::UnsupportedScheme(s) if s == "http"));
}

#[test]
fn zero_connections_are_rejected() {
    let mut cli = base_cli();
    cli.connections = 0;
    assert!(matches!(config_error(cli), ConfigError::ZeroConcurrency(0)));
}

#[test]
fn bad_duration_is_rejected() {
    let mut cli = base_cli();
    cli.message_timeout = "soon".to_string();
    assert!(matches!(config_error(cli), ConfigError::InvalidDuration(s) if s == "soon"));
}

#[test]
fn bad_header_is_rejected() {
    let mut cli = base_cli();
    cli.headers = vec!["NoColon".to_string()];
    assert!(matches!(config_error(cli), ConfigError::InvalidHeader(_)));
}

#[test]
fn error_rate_outside_unit_interval_is_rejected() {
    let mut cli = base_cli();
    cli.max_error_rate = Some("1.5".to_string());
    match config_error(cli) {
        ConfigError::InvalidThreshold(m) => assert_eq!(m, "max_error_rate must be between 0.0 and 1.0, received 1.5"),
        e => panic!("unexpected {:?}", e),
    }
}

#[test]
fn payload_file_read_error_is_reported() {
    let mut cli = base_cli();
    cli.payload_file = Some("missing.bin".to_string());
    let err = std::io::Error::new(std::io::ErrorKind::NotFound, "gone");
    match LoadTestConfig::from_cli(cli, Some(Err(err))) {
        Err(WsBlastError::Config(ConfigError::PayloadFile { path, .. })) => assert_eq!(path, "missing.bin"),
        _ => panic!("expected a payload file error"),
    }
}

#[test]
fn payload_file_must_be_utf8_for_text() {
    let mut cli = base_cli();
    cli.payload_file = Some("p.bin".to_string());
    assert!(matches!(
        LoadTestConfig::from_cli(cli.clone(), Some(Ok(vec![0xff, 0xfe]))),
        Err(WsBlastError::Config(ConfigError::PayloadFile { .. }))
    ));
    cli.binary = true;
    let c = LoadTestConfig::from_cli(cli, Some(Ok(vec![0xff, 0xfe]))).unwrap();
    assert!(matches!(c.payload, PayloadConfig::Binary(b) if b == vec![0xff, 0xfe]));
}

#[test]
fn default_payloads() {
    let c = LoadTestConfig::from_cli(base_cli(), None).unwrap();
    match c.payload {
        PayloadConfig::DynamicText(t) => assert_eq!(t, r#"{"source":"wsblast","ts":"{{timestamp}}","seq":{{seq}}}"#),
        _ => panic!("expected the default text payload"),
    }
    let mut cli = base_cli();
    cli.binary = true;
    let c = LoadTestConfig::from_cli(cli, None).unwrap();
    assert!(matches!(c.payload, PayloadConfig::Binary(b) if b == b"wsblast-payload".to_vec()));
}

#[test]
fn url_is_kept_in_its_parsed_form() {
    let mut cli = base_cli();
    cli.url = Some("WS://Example.COM".to_string());
    let c = LoadTestConfig::from_cli(cli, None).unwrap();
    assert_eq!(c.target_url, "ws://example.com/");
}

#[test]
fn inline_and_file_payloads() {
    let mut cli = base_cli();
    cli.payload = Some("abc".to_string());
    cli.binary = true;
    let c = LoadTestConfig::from_cli(cli, None).unwrap();
    assert!(matches!(c.payload, PayloadConfig::Binary(b) if b == b"abc".to_vec()));

    let mut cli = base_cli();
    cli.payload_file = Some("p.txt".to_string());
    let c = LoadTestConfig::from_cli(cli, Some(Ok("héllo".as_bytes().to_vec()))).unwrap();
    assert!(matches!(c.payload, PayloadConfig::StaticText(t) if t == "héllo"));
}

#[test]
fn out_of_range_durations_are_detected_before_validation() {
    let mut cli = base_cli();
    cli.duration = "-5s".to_string();
    assert!(LoadTestConfig::from_cli_would_panic(&cli, &None));
    assert!(LoadTestConfig::from_cli_checked(cli, None).is_none());

    let mut cli = base_cli();
    cli.connect_timeout = "99999999999999999999999h".to_string();
    assert!(LoadTestConfig::from_cli_checked(cli, None).is_none());

    let mut cli = base_cli();
    cli.max_p95 = Some("-0.5m".to_string());
    assert!(LoadTestConfig::from_cli_checked(cli, None).is_none());

    let mut cli = base_cli();
    cli.duration = "-0s".to_string();
    assert!(matches!(LoadTestConfig::from_cli_checked(cli, None), Some(Ok(_))));

    let mut cli = base_cli();
    cli.url = Some("http://example.com".to_string());
    cli.duration = "-5s".to_string();
    assert!(matches!(LoadTestConfig::from_cli_checked(cli, None), Some(Err(_))));

    let mut cli = base_cli();
    cli.duration = "abc".to_string();
    assert!(matches!(LoadTestConfig::from_cli_checked(cli, None), Some(Err(_))));
}

#[test]
fn thresholds_are_read_as_floats() {
    let mut cli = base_cli();
    cli.min_throughput = Some("inf".to_string());
    cli.max_error_rate = Some("1.0000000000000001".to_string());
    assert!(LoadTestConfig::from_cli(cli, None).is_ok());
    let mut cli = base_cli();
    cli.min_throughput = Some("NaN".to_string());
    assert!(LoadTestConfig::from_cli(cli, None).is_ok());
    let mut cli = base_cli();
    cli.max_error_rate = Some("1.0000000000000002".to_string());
    assert!(LoadTestConfig::from_cli(cli, None).is_err());
    let mut cli = base_cli();
    cli.max_error_rate = Some("NaN".to_string());
    assert!(LoadTestConfig::from_cli(cli, None).is_err());
}

#[test]
fn error_rate_threshold_in_float_notation() {
    let mut cli = base_cli();
    cli.max_error_rate = Some("1e-1".to_string());
    assert!(LoadTestConfig::from_cli(cli, None).is_ok());
}
