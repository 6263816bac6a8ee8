//! Decisions of the capture loop. The loop itself (waiting for audio,
//! posting, printing) runs in the program; after each piece of outside work
//! it hands the event here and performs the action it gets back.
//!
//! The loop checks the stop flag, then waits up to 200 ms for a chunk:
//! a timeout goes round again, a closed stream ends the run, a chunk is
//! pushed into the aggregator, a full batch is posted, and a failed post is
//! reported at most once per ten seconds.

use vstd::prelude::*;
use crate::inject::{report_due, REPORT_INTERVAL_MS};

verus! {

/// What happened since the last action.
#[derive(Debug, Clone, Copy, PartialEq, Eq, Structural)]
pub enum LoopEvent {
    /// The loop came round; `stop_requested` is the stop flag.
    Polled { stop_requested: bool },
    /// A chunk of samples arrived.
    ChunkReceived,
    /// No chunk arrived within the wait.
    ReceiveTimedOut,
    /// The capture stream has ended.
    StreamClosed,
    /// The chunk was pushed; `batch_ready` says whether a batch came out.
    Pushed { batch_ready: bool },
    /// The batch was posted; `failed` says whether it was given up, and
    /// `since_report_ms` is the time since the last failure report.
    Posted { failed: bool, since_report_ms: u64 },
    /// The failure was reported.
    Reported,
}

/// Why the loop ends.
#[derive(Debug, Clone, Copy, PartialEq, Eq, Structural)]
pub enum ExitReason {
    /// The stop flag was set (Ctrl+C, or the parent closed stdin).
    StopRequested,
    /// The capture stream ended.
    StreamClosed,
}

/// What the loop does next.
#[derive(Debug, Clone, Copy, PartialEq, Eq, Structural)]
pub enum LoopAction {
    /// Wait for the next chunk.
    Receive,
    /// Push the chunk that arrived into the aggregator.
    PushChunk,
    /// Post the batch that came out.
    PostBatch,
    /// Report the failed post.
    ReportFailure,
    /// Go round again: read the stop flag.
    Poll,
    /// End the loop.
    Exit(ExitReason),
}

/// The action that follows `event`.
pub fn next_action(event: LoopEvent) -> (r: LoopAction)
    ensures
        event == (LoopEvent::Polled { stop_requested: true }) ==> r == LoopAction::Exit(
            ExitReason::StopRequested,
        ),
        event == (LoopEvent::Polled { stop_requested: false }) ==> r == LoopAction::Receive,
        event == LoopEvent::ChunkReceived ==> r == LoopAction::PushChunk,
        event == LoopEvent::ReceiveTimedOut ==> r == LoopAction::Poll,
        event == LoopEvent::StreamClosed ==> r == LoopAction::Exit(ExitReason::StreamClosed),
        event == (LoopEvent::Pushed { batch_ready: true }) ==> r == LoopAction::PostBatch,
        event == (LoopEvent::Pushed { batch_ready: false }) ==> r == LoopAction::Poll,
        event matches LoopEvent::Posted { failed, since_report_ms } ==> r == (if failed
            && since_report_ms >= REPORT_INTERVAL_MS {
            LoopAction::ReportFailure
        } else {
            LoopAction::Poll
        }),
        event == LoopEvent::Reported ==> r == LoopAction::Poll,
{
    match event {
        LoopEvent::Polled { stop_requested } => {
            if stop_requested {
                LoopAction::Exit(ExitReason::StopRequested)
            } else {
                LoopAction::Receive
            }
        },
        LoopEvent::ChunkReceived => LoopAction::PushChunk,
        LoopEvent::ReceiveTimedOut => LoopAction::Poll,
        LoopEvent::StreamClosed => LoopAction::Exit(ExitReason::StreamClosed),
        LoopEvent::Pushed { batch_ready } => {
            if batch_ready {
                LoopAction::PostBatch
            } else {
                LoopAction::Poll
            }
        },
        LoopEvent::Posted { failed, since_report_ms } => {
            if failed && report_due(since_report_ms) {
                LoopAction::ReportFailure
            } else {
                LoopAction::Poll
            }
        },
        LoopEvent::Reported => LoopAction::Poll,
    }
}

} // verus!
