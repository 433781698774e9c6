use mqtt_bridge::{payload_to_text, route_event, InboundEvent, Route, WILDCARD_TOPIC};

#[test]
fn control_topic_publish_is_a_command() {
    let e = InboundEvent::Publish { topic: "root/commands".to_string(), payload: b"{\"a\":1}".to_vec() };
    match route_event(e, "root/commands", true) {
        Route::Command(c) => assert_eq!(c, "{\"a\":1}"),
        other => panic!("unexpected route {:?}", other),
    }
}

#[test]
fn other_publish_is_stored() {
    let e = InboundEvent::Publish { topic: "sensor/temp".to_string(), payload: "21.5".as_bytes().to_vec() };
    match route_event(e, "root/commands", false) {
        Route::Store { topic, payload } => {
            assert_eq!(topic, "sensor/temp");
            assert_eq!(payload, "21.5");
        }
        other => panic!("unexpected route {:?}", other),
    }
}

#[test]
fn invalid_utf8_reads_as_empty() {
    assert_eq!(payload_to_text(vec![0xff, 0xfe]), "");
    assert_eq!(payload_to_text("grüße".as_bytes().to_vec()), "grüße");
}

#[test]
fn connack_subscribes_all_only_for_retention() {
    assert!(matches!(route_event(InboundEvent::ConnAck, "c", true), Route::SubscribeAll));
    assert!(matches!(route_event(InboundEvent::ConnAck, "c", false), Route::Ignore));
    assert!(matches!(route_event(InboundEvent::Other, "c", true), Route::Ignore));
    assert_eq!(WILDCARD_TOPIC, "#");
}
