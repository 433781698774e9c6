use mqtt_bridge::{PublishOutcome, PublishRetry, PublishStep, PUBLISH_ATTEMPTS, PUBLISH_RETRY_DELAY_MS};

#[test]
fn no_client_means_five_attempts_one_second_apart() {
    let mut p = PublishRetry::new();
    let mut steps = Vec::new();
    loop {
        let step = p.record(PublishOutcome::NoClient);
        steps.push(step);
        if step != PublishStep::RetryAfter(PUBLISH_RETRY_DELAY_MS) {
            break;
        }
    }
    assert_eq!(p.attempts(), 5);
    assert_eq!(PUBLISH_ATTEMPTS, 5);
    assert_eq!(PUBLISH_RETRY_DELAY_MS, 1000);
    assert_eq!(
        steps,
        vec![
            PublishStep::RetryAfter(1000),
            PublishStep::RetryAfter(1000),
            PublishStep::RetryAfter(1000),
            PublishStep::RetryAfter(1000),
            PublishStep::GiveUp
        ]
    );
    assert_eq!(p.record(PublishOutcome::Delivered), PublishStep::GiveUp);
    assert_eq!(p.attempts(), 5);
}

#[test]
fn delivery_on_second_attempt_stops_retrying() {
    let mut p = PublishRetry::new();
    assert_eq!(p.record(PublishOutcome::Failed), PublishStep::RetryAfter(1000));
    assert_eq!(p.record(PublishOutcome::Delivered), PublishStep::Done);
    assert_eq!(p.record(PublishOutcome::Failed), PublishStep::Done);
    assert_eq!(p.attempts(), 2);
}
