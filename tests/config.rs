use mqtt_bridge::{parse_bool, parse_i32, parse_unsigned, Config, ConfigError, RawSettings};

fn minimal() -> RawSettings {
    RawSettings {
        mqtt_host: Some("broker.local".to_string()),
        mqtt_port: Some("1883".to_string()),
        ..RawSettings::default()
    }
}

#[test]
fn defaults_fill_unset_settings() {
    let c = Config::from_settings(&minimal()).unwrap();
    assert_eq!(c.mqtt_host, "broker.local");
    assert_eq!(c.mqtt_port, 1883);
    assert_eq!(c.mqtt_username, "");
    assert!(!c.mqtt_ssl_enabled);
    assert_eq!(c.mqtt_ssl_cert_path, None);
    assert_eq!(c.mqtt_max_retries, -1);
    assert_eq!(c.mqtt_retry_interval_ms, 5000);
    assert_eq!(c.log_topic, "image_uploader/logs");
    assert_eq!(c.status_topic, "image_uploader/status");
    assert_eq!(c.command_topic, "image_uploader/commands");
    assert_eq!(c.progress_topic, "image_uploader/progress");
    assert_eq!(c.analytics_topic, "image_uploader/analytics");
    assert_eq!(c.rest_api_host, "0.0.0.0");
    assert_eq!(c.rest_api_port, 8080);
    assert_eq!(c.max_api_requests_per_minute, 100);
    assert!(c.rest_api_auth_enabled);
    assert!(c.jwt_auth_enabled);
    assert_eq!(c.jwt_expiration_minutes, 60);
    assert!(c.cors_enabled);
    assert_eq!(c.cors_allowed_origins, vec!["http://localhost".to_string()]);
}

#[test]
fn missing_host_is_reported() {
    let r = Config::from_settings(&RawSettings::default());
    assert_eq!(r.unwrap_err(), ConfigError::MissingOrInvalid("MQTT_HOST".to_string()));
    let mut s = minimal();
    s.mqtt_port = None;
    assert_eq!(
        Config::from_settings(&s).unwrap_err(),
        ConfigError::MissingOrInvalid("MQTT_PORT".to_string())
    );
}

#[test]
fn malformed_settings_are_reported_in_order() {
    let mut s = minimal();
    s.mqtt_port = Some("70000".to_string());
    s.mqtt_ssl_enabled = Some("yes".to_string());
    assert_eq!(
        Config::from_settings(&s).unwrap_err(),
        ConfigError::ParsingError("MQTT_PORT must be a valid number".to_string())
    );
    s.mqtt_port = Some("1883".to_string());
    assert_eq!(
        Config::from_settings(&s).unwrap_err(),
        ConfigError::ParsingError("MQTT_SSL_ENABLED must be a boolean".to_string())
    );
    let mut s = minimal();
    s.mqtt_max_retries = Some("three".to_string());
    assert_eq!(
        Config::from_settings(&s).unwrap_err(),
        ConfigError::ParsingError("MQTT_MAX_RETRIES must be an integer".to_string())
    );
}

#[test]
fn retry_interval_must_be_in_range() {
    let mut s = minimal();
    s.mqtt_retry_interval_ms = Some("99".to_string());
    assert_eq!(
        Config::from_settings(&s).unwrap_err(),
        ConfigError::ParsingError("MQTT_RETRY_INTERVAL_MS must be between 100 and 1000000 ms".to_string())
    );
    s.mqtt_retry_interval_ms = Some("1000000".to_string());
    let c = Config::from_settings(&s).unwrap();
    assert_eq!(c.mqtt_retry_interval_ms, 1_000_000);
    assert!(c.validate_timeouts().is_ok());
}

#[test]
fn root_topic_and_origins_are_read() {
    let mut s = minimal();
    s.mqtt_root_topic = Some("plant".to_string());
    s.cors_allowed_origins = Some(" http://a.example , http://b.example,".to_string());
    s.mqtt_max_retries = Some("-3".to_string());
    s.mqtt_ssl_enabled = Some("true".to_string());
    s.mqtt_ssl_cert_path = Some("/ca.pem".to_string());
    let c = Config::from_settings(&s).unwrap();
    assert_eq!(c.command_topic, "plant/commands");
    assert_eq!(c.cors_allowed_origins, vec!["http://a.example", "http://b.example", ""]);
    assert_eq!(c.mqtt_max_retries, -3);
    assert!(c.mqtt_ssl_enabled);
    let m = c.mqtt_config();
    assert_eq!(m.mqtt_ssl_cert_path.as_deref(), Some("/ca.pem"));
    assert_eq!(m.command_topic, "plant/commands");
    assert_eq!(m.mqtt_max_retries, -3);
}

#[test]
fn number_parsing_follows_decimal_text() {
    assert_eq!(parse_unsigned("8080", 65535), Some(8080));
    assert_eq!(parse_unsigned("+7", 65535), Some(7));
    assert_eq!(parse_unsigned("65536", 65535), None);
    assert_eq!(parse_unsigned("", 65535), None);
    assert_eq!(parse_unsigned("+", 65535), None);
    assert_eq!(parse_unsigned("1a", 65535), None);
    assert_eq!(parse_unsigned("18446744073709551615", u64::MAX), Some(u64::MAX));
    assert_eq!(parse_unsigned("18446744073709551616", u64::MAX), None);
    assert_eq!(parse_i32("-2147483648"), Some(i32::MIN));
    assert_eq!(parse_i32("2147483648"), None);
    assert_eq!(parse_i32("-"), None);
    assert_eq!(parse_i32("-0"), Some(0));
    assert_eq!(parse_bool("true"), Some(true));
    assert_eq!(parse_bool("false"), Some(false));
    assert_eq!(parse_bool("True"), None);
}

#[test]
fn origins_lose_unicode_white_space() {
    let mut s = minimal();
    s.cors_allowed_origins = Some("\u{3000}http://a.example\u{a0},\t\nhttp://b.example\u{2009}".to_string());
    let c = Config::from_settings(&s).unwrap();
    assert_eq!(c.cors_allowed_origins, vec!["http://a.example", "http://b.example"]);
}
