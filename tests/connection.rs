use mqtt_bridge::{
    client_id_from, new_client_id, ClientState, ConnAction, ConnEvent, ConnectionManager,
    MqttConfig, StopReason,
};

fn config(max_retries: i32, interval: u64, tls: bool, cert: Option<&str>) -> MqttConfig {
    MqttConfig {
        mqtt_host: "localhost".to_string(),
        mqtt_port: 1883,
        mqtt_username: String::new(),
        mqtt_password: String::new(),
        mqtt_ssl_enabled: tls,
        mqtt_ssl_cert_path: cert.map(|c| c.to_string()),
        log_topic: "root/logs".to_string(),
        status_topic: "root/status".to_string(),
        command_topic: "root/commands".to_string(),
        progress_topic: "root/progress".to_string(),
        analytics_topic: "root/analytics".to_string(),
        mqtt_max_retries: max_retries,
        mqtt_retry_interval_ms: interval,
    }
}

fn is_connect(a: &ConnAction) -> bool {
    matches!(a, ConnAction::Connect { .. })
}

#[test]
fn three_failing_attempts_then_stop() {
    let mut m = ConnectionManager::new(&config(3, 1000, false, None));
    let mut attempts = 0;
    loop {
        match m.step(ConnEvent::Start) {
            ConnAction::Connect { certificate } => {
                assert_eq!(certificate, None);
                attempts += 1;
                assert!(matches!(
                    m.step(ConnEvent::SubscribeFailed("refused".to_string())),
                    ConnAction::Sleep(_)
                ));
            }
            ConnAction::Stop(r) => {
                assert_eq!(r, StopReason::RetriesExhausted);
                break;
            }
            other => panic!("unexpected action {:?}", other),
        }
    }
    assert_eq!(attempts, 3);
    assert!(matches!(m.step(ConnEvent::Start), ConnAction::Stop(StopReason::RetriesExhausted)));
    assert!(matches!(m.step(ConnEvent::Subscribed), ConnAction::Stop(StopReason::RetriesExhausted)));
    assert_eq!(m.stopped(), Some(StopReason::RetriesExhausted));
}

#[test]
fn backoff_doubles_up_to_a_minute_and_resets_on_subscribe() {
    let mut m = ConnectionManager::new(&config(-1, 5000, false, None));
    let mut waits = Vec::new();
    for _ in 0..6 {
        assert!(is_connect(&m.step(ConnEvent::Start)));
        match m.step(ConnEvent::SubscribeFailed("x".to_string())) {
            ConnAction::Sleep(ms) => waits.push(ms),
            other => panic!("unexpected action {:?}", other),
        }
        assert!(matches!(m.state(), ClientState::Error(r) if r == "x"));
    }
    assert_eq!(waits, vec![5000, 10000, 20000, 40000, 60000, 60000]);
    assert!(is_connect(&m.step(ConnEvent::Start)));
    assert!(matches!(m.step(ConnEvent::Subscribed), ConnAction::Serve));
    assert!(matches!(m.state(), ClientState::Connected));
    assert_eq!(m.retry_interval_ms(), 5000);
    assert_eq!(m.failures(), 0);
    assert!(matches!(m.step(ConnEvent::ConnectionLost), ConnAction::Sleep(5000)));
    assert!(matches!(m.state(), ClientState::Disconnected));
    assert_eq!(m.retry_interval_ms(), 10000);
    assert_eq!(m.failures(), 1);
}

#[test]
fn connected_only_after_subscribe() {
    let mut m = ConnectionManager::new(&config(0, 100, false, None));
    assert!(matches!(m.step(ConnEvent::Subscribed), ConnAction::Ignore));
    assert!(matches!(m.state(), ClientState::Disconnected));
    assert!(matches!(m.step(ConnEvent::ConnectionLost), ConnAction::Ignore));
    assert!(is_connect(&m.step(ConnEvent::Start)));
    assert!(matches!(m.state(), ClientState::Connecting));
    assert!(matches!(m.step(ConnEvent::Start), ConnAction::Ignore));
    assert!(matches!(m.step(ConnEvent::Subscribed), ConnAction::Serve));
    assert!(matches!(m.state(), ClientState::Connected));
}

#[test]
fn failures_reset_after_success() {
    let mut m = ConnectionManager::new(&config(2, 100, false, None));
    m.step(ConnEvent::Start);
    m.step(ConnEvent::SubscribeFailed("a".to_string()));
    m.step(ConnEvent::Start);
    m.step(ConnEvent::Subscribed);
    m.step(ConnEvent::ConnectionLost);
    assert!(is_connect(&m.step(ConnEvent::Start)));
    m.step(ConnEvent::SubscribeFailed("b".to_string()));
    assert!(matches!(m.step(ConnEvent::Start), ConnAction::Stop(StopReason::RetriesExhausted)));
}

#[test]
fn tls_without_certificate_path_stops() {
    let mut m = ConnectionManager::new(&config(-1, 100, true, None));
    assert!(matches!(
        m.step(ConnEvent::Start),
        ConnAction::Stop(StopReason::MissingCertificatePath)
    ));
}

#[test]
fn tls_reads_certificate_and_stops_when_unreadable() {
    let mut m = ConnectionManager::new(&config(-1, 100, true, Some("/etc/ca.pem")));
    match m.step(ConnEvent::Start) {
        ConnAction::Connect { certificate } => assert_eq!(certificate.as_deref(), Some("/etc/ca.pem")),
        other => panic!("unexpected action {:?}", other),
    }
    assert!(matches!(
        m.step(ConnEvent::CertificateUnreadable),
        ConnAction::Stop(StopReason::CertificateUnreadable)
    ));
    assert!(matches!(
        m.step(ConnEvent::Start),
        ConnAction::Stop(StopReason::CertificateUnreadable)
    ));
}

#[test]
fn certificate_path_ignored_without_tls() {
    let mut m = ConnectionManager::new(&config(-1, 100, false, Some("/etc/ca.pem")));
    match m.step(ConnEvent::Start) {
        ConnAction::Connect { certificate } => assert_eq!(certificate, None),
        other => panic!("unexpected action {:?}", other),
    }
}

#[test]
fn client_ids_are_prefixed_and_fresh() {
    assert_eq!(client_id_from("monitored", "abc"), "monitored_abc");
    let a = new_client_id("internal");
    let b = new_client_id("internal");
    assert!(a.starts_with("internal_"));
    assert_eq!(a.len(), "internal_".len() + 36);
    assert_ne!(a, b);
    let token: Vec<char> = a["internal_".len()..].chars().collect();
    for (i, c) in token.iter().enumerate() {
        if [8, 13, 18, 23].contains(&i) {
            assert_eq!(*c, '-');
        } else {
            assert!(c.is_ascii_digit() || ('a'..='f').contains(c));
        }
    }
}
