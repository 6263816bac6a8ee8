use sound_analysis::inject::{
    report_due, Delivery, FailureCause, Outcome, Step, FIELDS_DEF, FIELD_LEVEL, FIELD_WAVEFORM,
};

#[test]
fn status_200_is_delivered_on_any_attempt() {
    let mut d = Delivery::new();
    assert_eq!(d.on_outcome(Outcome::Status(200)), Step::Delivered);
    let mut d = Delivery::new();
    assert_eq!(d.on_outcome(Outcome::Status(500)), Step::RetryAfter(400));
    assert_eq!(d.on_outcome(Outcome::Status(200)), Step::Delivered);
}

#[test]
fn three_attempts_with_doubling_waits() {
    let mut d = Delivery::new();
    assert_eq!(d.attempt_number(), 1);
    assert_eq!(d.on_outcome(Outcome::Status(503)), Step::RetryAfter(400));
    assert_eq!(d.attempt_number(), 2);
    assert_eq!(d.on_outcome(Outcome::Failed("refused".to_string())), Step::RetryAfter(800));
    assert_eq!(d.attempt_number(), 3);
    assert_eq!(
        d.on_outcome(Outcome::Status(404)),
        Step::GiveUpAfter(1600, FailureCause::Status(404))
    );
}

#[test]
fn last_transport_error_is_kept() {
    let mut d = Delivery::new();
    d.on_outcome(Outcome::Status(500));
    d.on_outcome(Outcome::Status(500));
    assert_eq!(
        d.on_outcome(Outcome::Failed("timeout".to_string())),
        Step::GiveUpAfter(1600, FailureCause::Request("timeout".to_string()))
    );
}

#[test]
fn failures_are_reported_every_ten_seconds_at_most() {
    assert!(!report_due(0));
    assert!(!report_due(9_999));
    assert!(report_due(10_000));
    assert!(report_due(11_000));
}

#[test]
fn field_names_and_definitions() {
    assert_eq!(FIELD_WAVEFORM, "AudioWaveform");
    assert_eq!(FIELD_LEVEL, "AudioLevel");
    assert!(FIELDS_DEF.contains("\"AudioWaveform\""));
    assert!(FIELDS_DEF.contains("\"AudioLevel\""));
}
