use mqtt_bridge::{DatabaseService, StoreError};

fn store_with_brokers() -> DatabaseService {
    let mut s = DatabaseService::new();
    s.validate_or_add_broker("internal", "10.0.0.1", 1883, Some("u"), Some("p"), false).unwrap();
    s.validate_or_add_broker("monitored", "10.0.0.2", 8883, None, None, true).unwrap();
    s.add_or_update_topic("sensor/temp", None, 3, 1000).unwrap();
    s.add_or_update_topic("sensor/hum", None, 3, 1000).unwrap();
    s
}

#[test]
fn existing_broker_takes_the_latest_settings() {
    let mut s = store_with_brokers();
    s.add_subscription("internal", "sensor/temp").unwrap();
    s.validate_or_add_broker("internal", "elsewhere", 1, None, None, true).unwrap();
    let b = s.broker("internal").unwrap();
    assert_eq!(b.id, 1);
    assert_eq!(b.host, "elsewhere");
    assert_eq!(b.port, 1);
    assert_eq!(b.username, None);
    assert!(b.tls_enabled);
    assert!(s.validate_topic("sensor/temp", "internal"));
    assert_eq!(s.broker("monitored").unwrap().host, "10.0.0.2");
    assert!(s.broker("ghost").is_none());
}

#[test]
fn subscriptions_need_known_broker_and_topic() {
    let mut s = store_with_brokers();
    assert_eq!(s.add_subscription("ghost", "sensor/temp"), Err(StoreError::UnknownBroker));
    assert_eq!(s.add_subscription("internal", "nope"), Err(StoreError::UnknownTopic));
    assert!(!s.validate_topic("sensor/temp", "internal"));
    s.add_subscription("internal", "sensor/temp").unwrap();
    s.add_subscription("internal", "sensor/temp").unwrap();
    assert!(s.validate_topic("sensor/temp", "internal"));
    assert!(!s.validate_topic("sensor/hum", "internal"));
    assert!(!s.validate_topic("sensor/temp", "monitored"));
}

#[test]
fn topics_move_between_brokers() {
    let mut s = store_with_brokers();
    s.add_subscription("internal", "sensor/temp").unwrap();
    s.add_subscription("internal", "sensor/hum").unwrap();
    s.add_subscription("monitored", "sensor/hum").unwrap();
    s.update_broker_for_topics("internal", "monitored").unwrap();
    assert!(!s.validate_topic("sensor/temp", "internal"));
    assert!(!s.validate_topic("sensor/hum", "internal"));
    assert!(s.validate_topic("sensor/temp", "monitored"));
    assert!(s.validate_topic("sensor/hum", "monitored"));
    assert_eq!(s.update_broker_for_topics("internal", "ghost"), Err(StoreError::UnknownBroker));
}
