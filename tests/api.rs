use mqtt_bridge::{action_response, welcome_response, Config, Cors, RawSettings};

fn config_with_origins(origins: &str) -> Config {
    let s = RawSettings {
        mqtt_host: Some("h".to_string()),
        mqtt_port: Some("1".to_string()),
        cors_allowed_origins: Some(origins.to_string()),
        ..RawSettings::default()
    };
    Config::from_settings(&s).unwrap()
}

#[test]
fn listed_origin_is_echoed() {
    let cors = Cors::new(&config_with_origins("http://a.example,http://b.example"));
    assert!(cors.allows("http://b.example"));
    assert!(!cors.allows("http://c.example"));
    assert_eq!(cors.allow_origin_header(Some("http://a.example")).as_deref(), Some("http://a.example"));
    assert_eq!(cors.allow_origin_header(Some("http://c.example")), None);
    assert_eq!(cors.allow_origin_header(None), None);
}

#[test]
fn star_admits_every_origin() {
    let cors = Cors::new(&config_with_origins("*"));
    assert_eq!(cors.allow_origin_header(Some("http://z.example")).as_deref(), Some("http://z.example"));
}

#[test]
fn actions_answer_ping_only_without_auth() {
    let r = action_response("ping", true);
    assert_eq!((r.status.as_str(), r.message.as_str()), ("error", "Authentication required but not implemented."));
    let r = action_response("ping", false);
    assert_eq!((r.status.as_str(), r.message.as_str()), ("success", "pong"));
    let r = action_response("dance", false);
    assert_eq!((r.status.as_str(), r.message.as_str()), ("error", "Unknown action"));
}

#[test]
fn welcome_names_host_and_port() {
    let r = welcome_response("0.0.0.0", 8080);
    assert_eq!(r.status, "success");
    assert_eq!(r.message, "Welcome to the REST API running on 0.0.0.0:8080!");
}
