use mqtt_bridge::{
    analytics_payload, log_payload, progress_payload, running_payload, shutdown_payload,
    signal_failure_payload, status_payload,
};

#[test]
fn fixed_payload_shapes() {
    assert_eq!(log_payload("hi"), "{\"level\": \"INFO\", \"message\": \"hi\"}");
    assert_eq!(status_payload("running", "ok"), "{\"status\": \"running\", \"details\": \"ok\"}");
    assert_eq!(analytics_payload("upload", "3 files"), "{\"event\": \"upload\", \"details\": \"3 files\"}");
    assert_eq!(running_payload("internal"), "{\"status\": \"running\", \"message\": \"internal is operational\"}");
    assert_eq!(shutdown_payload("internal"), "{\"status\": \"shutdown\", \"message\": \"internal is shutting down...\"}");
    assert_eq!(
        signal_failure_payload("monitored"),
        "{\"status\": \"error\", \"message\": \"Termination signal failed for monitored\"}"
    );
}

#[test]
fn progress_payload_has_two_places() {
    assert_eq!(progress_payload(50, 200), "{\"progress\": 50, \"total\": 200, \"percentage\": 25.00}");
    assert_eq!(progress_payload(1, 3), "{\"progress\": 1, \"total\": 3, \"percentage\": 33.33}");
    assert_eq!(progress_payload(2, 3), "{\"progress\": 2, \"total\": 3, \"percentage\": 66.67}");
    assert_eq!(progress_payload(199999, 200000), "{\"progress\": 199999, \"total\": 200000, \"percentage\": 100.00}");
    assert_eq!(progress_payload(1, 1000), "{\"progress\": 1, \"total\": 1000, \"percentage\": 0.10}");
    assert_eq!(progress_payload(0, 0), "{\"progress\": 0, \"total\": 0, \"percentage\": 0.00}");
}
