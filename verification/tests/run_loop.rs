use sound_analysis::run_loop::{next_action, ExitReason, LoopAction, LoopEvent};

#[test]
fn stop_flag_ends_the_loop() {
    assert_eq!(
        next_action(LoopEvent::Polled { stop_requested: true }),
        LoopAction::Exit(ExitReason::StopRequested)
    );
    assert_eq!(next_action(LoopEvent::Polled { stop_requested: false }), LoopAction::Receive);
}

#[test]
fn receiving_outcomes() {
    assert_eq!(next_action(LoopEvent::ChunkReceived), LoopAction::PushChunk);
    assert_eq!(next_action(LoopEvent::ReceiveTimedOut), LoopAction::Poll);
    assert_eq!(next_action(LoopEvent::StreamClosed), LoopAction::Exit(ExitReason::StreamClosed));
}

#[test]
fn full_batch_is_posted() {
    assert_eq!(next_action(LoopEvent::Pushed { batch_ready: true }), LoopAction::PostBatch);
    assert_eq!(next_action(LoopEvent::Pushed { batch_ready: false }), LoopAction::Poll);
}

#[test]
fn failed_post_is_reported_when_due() {
    assert_eq!(
        next_action(LoopEvent::Posted { failed: true, since_report_ms: 11_000 }),
        LoopAction::ReportFailure
    );
    assert_eq!(
        next_action(LoopEvent::Posted { failed: true, since_report_ms: 9_999 }),
        LoopAction::Poll
    );
    assert_eq!(
        next_action(LoopEvent::Posted { failed: false, since_report_ms: 60_000 }),
        LoopAction::Poll
    );
    assert_eq!(next_action(LoopEvent::Reported), LoopAction::Poll);
}
