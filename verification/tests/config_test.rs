use wsblast::config::{parse_human_duration, Decimal, PayloadConfig};
use wsblast::error::{ConfigError, WsBlastError};
use wsblast::headers::parse_header_pair;
use wsblast::time::Duration;

#[test]
fn test_parse_human_durations() {
    assert_eq!(parse_human_duration("500ms").unwrap(), Duration::from_millis(500));
    assert_eq!(parse_human_duration("10s").unwrap(), Duration::from_secs(10));
    assert_eq!(parse_human_duration("2m").unwrap(), Duration::from_secs(120));
    assert_eq!(parse_human_duration("100us").unwrap(), Duration::from_micros(100));
    assert_eq!(parse_human_duration("0s").unwrap(), Duration::zero());
}

#[test]
fn test_parse_header_pair() {
    let (name, value) = parse_header_pair("Authorization: Bearer mytoken123").unwrap();
    assert_eq!(name.as_str(), "authorization");
    assert_eq!(value.as_str(), "Bearer mytoken123");
}

#[test]
fn human_duration_hours_fractions_and_bare_seconds() {
    assert_eq!(parse_human_duration("1h").unwrap(), Duration::from_secs(3600));
    assert_eq!(parse_human_duration("1.5s").unwrap(), Duration::from_millis(1500));
    assert_eq!(parse_human_duration("  30 ").unwrap(), Duration::from_secs(30));
    assert_eq!(parse_human_duration("250µs").unwrap(), Duration::from_micros(250));
}

#[test]
fn human_duration_rejects_malformed_text() {
    match parse_human_duration("abc") {
        Err(WsBlastError::Config(ConfigError::InvalidDuration(_))) => {}
        other => panic!("unexpected result: {:?}", other),
    }
    assert!(parse_human_duration("").is_err());
    assert!(parse_human_duration("10x").is_err());
}

#[test]
fn header_pair_rejects_missing_colon_and_bad_name() {
    assert!(parse_header_pair("NoColonHere").is_err());
    assert!(parse_header_pair("Bad Name: value").is_err());
    let (name, value) = parse_header_pair("X-Trace-Id:   abc  ").unwrap();
    assert_eq!(name.as_str(), "x-trace-id");
    assert_eq!(value.as_str(), "abc");
}

#[test]
fn payload_text_classification_per_placeholder() {
    assert!(matches!(PayloadConfig::from_text("t={{timestamp}}".to_string()), PayloadConfig::DynamicText(_)));
    assert!(matches!(PayloadConfig::from_text("w={{worker_id}}".to_string()), PayloadConfig::DynamicText(_)));
    assert!(matches!(PayloadConfig::from_text("{{seq".to_string()), PayloadConfig::StaticText(_)));
}

#[test]
fn decimal_parsing() {
    assert!(Decimal::parse("0.01").is_some());
    assert!(Decimal::parse("-2.5").is_some());
    assert!(Decimal::parse("").is_none());
}

#[test]
fn header_value_with_control_character_is_rejected() {
    assert!(parse_header_pair("X-Test: a\u{1}b").is_err());
    assert!(parse_header_pair("X-Test: tab\there").is_ok());
}

#[test]
fn decimals_take_float_exponents() {
    assert_eq!(Decimal::parse("1e-1").map(|d| d.parts()), Some((false, 1, 1)));
    assert_eq!(Decimal::parse("2.5E1").map(|d| d.parts()), Some((false, 25, 0)));
    assert_eq!(Decimal::parse("-3e+2").map(|d| d.parts()), Some((true, 300, 0)));
    assert_eq!(Decimal::parse("0e999999999999999999999999999999999999999").map(|d| d.parts()), Some((false, 0, 0)));
    assert!(Decimal::parse("1e31").is_none());
    assert!(Decimal::parse("1e").is_none());
    assert!(Decimal::parse("e5").is_none());
    assert!(Decimal::parse("1e5.0").is_none());
}
