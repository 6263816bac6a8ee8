//! Reporting to the field-injection endpoint.
//!
//! Each batch is posted as a JSON body that carries the field values
//! together with the field definitions (`__fields`): injected fields expire
//! after five seconds, so every post refreshes them. A post that is not
//! answered with status 200 is tried again, three attempts in all, with a
//! wait that starts at 400 ms and doubles after every failed attempt.

use vstd::prelude::*;

verus! {

/// Name of the waveform field.
pub const FIELD_WAVEFORM: &'static str = "AudioWaveform";

/// Name of the loudness field (the mean RMS of a batch).
pub const FIELD_LEVEL: &'static str = "AudioLevel";

/// Definitions of the two fields, sent under `__fields` with every post.
pub const FIELDS_DEF: &'static str = r#"{
  "AudioWaveform": { "label": "音频波形", "unit": "振幅", "min": -1, "max": 1, "group": "音频" },
  "AudioLevel": { "label": "音频响度", "unit": "RMS", "min": 0, "max": 1, "group": "音频" }
}"#;

/// Attempts made for one batch.
pub const MAX_ATTEMPTS: u32 = 3;

/// Wait after the first failed attempt, in milliseconds.
pub const FIRST_WAIT_MS: u64 = 400;

/// The status that counts as delivered.
pub const STATUS_OK: u16 = 200;

/// Failures are reported at most once per this many milliseconds.
pub const REPORT_INTERVAL_MS: u64 = 10_000;

/// How one attempt to post ended.
#[derive(Debug, PartialEq, Eq)]
pub enum Outcome {
    /// The service answered with this status.
    Status(u16),
    /// The request failed before an answer came; the text says why.
    Failed(String),
}

/// Why the last attempt for a batch failed.
#[derive(Debug, PartialEq, Eq)]
pub enum FailureCause {
    /// The service answered with a status other than 200.
    Status(u16),
    /// The request failed; the text says why.
    Request(String),
}

/// What to do after an attempt.
#[derive(Debug, PartialEq, Eq)]
pub enum Step {
    /// The batch was delivered.
    Delivered,
    /// Wait this many milliseconds, then make the next attempt.
    RetryAfter(u64),
    /// Wait this many milliseconds, then give the batch up for this cause.
    GiveUpAfter(u64, FailureCause),
}

/// The wait after the `attempt`-th failed attempt: 400 ms, doubled after
/// every attempt before it.
pub open spec fn wait_after(attempt: nat) -> nat
    decreases attempt,
{
    if attempt <= 1 {
        FIRST_WAIT_MS as nat
    } else {
        2 * wait_after((attempt - 1) as nat)
    }
}

/// The cause recorded for a failed outcome.
pub open spec fn cause_of(outcome: Outcome) -> FailureCause {
    match outcome {
        Outcome::Status(s) => FailureCause::Status(s),
        Outcome::Failed(e) => FailureCause::Request(e),
    }
}

/// The retry state of one batch: which attempt is being made and how long
/// to wait if it fails.
pub struct Delivery {
    attempt: u32,
    wait_ms: u64,
}

impl Delivery {
    /// The attempt being made, counting from one.
    pub closed spec fn attempt(self) -> nat {
        self.attempt as nat
    }

    /// The state is one the retry policy can reach.
    pub closed spec fn wf(self) -> bool {
        &&& 1 <= self.attempt <= MAX_ATTEMPTS
        &&& self.wait_ms == wait_after(self.attempt as nat)
    }

    /// The state before the first attempt.
    pub fn new() -> (r: Self)
        ensures
            r.wf(),
            r.attempt() == 1,
    {
        Delivery { attempt: 1, wait_ms: FIRST_WAIT_MS }
    }

    /// The attempt being made, counting from one.
    pub fn attempt_number(&self) -> (r: u32)
        ensures
            r == self.attempt(),
    {
        self.attempt
    }

    /// Decides what follows an attempt that ended with `outcome`: status
    /// 200 delivers; anything else waits and tries again, except after the
    /// third attempt, which waits and gives up.
    pub fn on_outcome(&mut self, outcome: Outcome) -> (r: Step)
        requires
            old(self).wf(),
        ensures
            final(self).wf(),
            r !is RetryAfter ==> *final(self) == *old(self),
            outcome == Outcome::Status(STATUS_OK) ==> r == Step::Delivered,
            outcome != Outcome::Status(STATUS_OK) && old(self).attempt() < MAX_ATTEMPTS ==> {
                &&& r == Step::RetryAfter(wait_after(old(self).attempt()) as u64)
                &&& final(self).wf()
                &&& final(self).attempt() == old(self).attempt() + 1
            },
            outcome != Outcome::Status(STATUS_OK) && old(self).attempt() == MAX_ATTEMPTS ==> r
                == Step::GiveUpAfter(wait_after(old(self).attempt()) as u64, cause_of(outcome)),
    {
        let delivered = match &outcome {
            Outcome::Status(s) => *s == STATUS_OK,
            Outcome::Failed(_) => false,
        };
        if delivered {
            return Step::Delivered;
        }
        let wait = self.wait_ms;
        proof {
            assert(wait_after(1) == 400);
            assert(wait_after(2) == 800);
            assert(wait_after(3) == 1600);
        }
        if self.attempt < MAX_ATTEMPTS {
            self.attempt = self.attempt + 1;
            self.wait_ms = self.wait_ms * 2;
            Step::RetryAfter(wait)
        } else {
            let cause = match outcome {
                Outcome::Status(s) => FailureCause::Status(s),
                Outcome::Failed(e) => FailureCause::Request(e),
            };
            Step::GiveUpAfter(wait, cause)
        }
    }
}

/// Whether a failure is reported, `elapsed_ms` milliseconds after the last
/// report: at most one report per ten seconds.
pub fn report_due(elapsed_ms: u64) -> (r: bool)
    ensures
        r == (elapsed_ms >= REPORT_INTERVAL_MS),
{
    elapsed_ms >= REPORT_INTERVAL_MS
}

} // verus!
