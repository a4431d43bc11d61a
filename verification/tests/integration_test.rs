use wsblast::config::PayloadConfig;

#[test]
fn test_payload_config_classification() {
    let static_p = PayloadConfig::from_text("plain text without macros".to_string());
    assert!(matches!(static_p, PayloadConfig::StaticText(_)));

    let dynamic_p = PayloadConfig::from_text(r#"{"seq": {{seq}}}"#.to_string());
    assert!(matches!(dynamic_p, PayloadConfig::DynamicText(_)));
}
