//! Reconnect supervisor: one retry loop per consumption topology re-binds
//! failed consumers with linear backoff. The loop itself (sleeping and
//! calling the binder) is driven by the application; this module holds the
//! backoff bookkeeping and its exact policy.

use vstd::prelude::*;

verus! {

/// Backoff bookkeeping of one supervisor loop.
///
/// The failure counter saturates at [`FAILURE_CAP`]; the wait before an
/// attempt is `max(counter, 1)` seconds when the previous attempt failed,
/// and zero when it succeeded.
#[derive(Debug, Clone, Copy, PartialEq, Eq, Structural)]
pub struct RetryState {
    /// Whether the previous bind attempt succeeded.
    pub last_ok: bool,
    /// Consecutive failures, saturated at [`FAILURE_CAP`].
    pub continue_err: u32,
}

/// The failure counter never grows past this value.
pub const FAILURE_CAP: u32 = 10;

/// Seconds to sleep before the next bind attempt.
pub open spec fn spec_wait_secs(s: RetryState) -> u64 {
    if s.last_ok {
        0
    } else if s.continue_err < 1 {
        1
    } else if s.continue_err > FAILURE_CAP {
        FAILURE_CAP as u64
    } else {
        s.continue_err as u64
    }
}

/// The state after one bind attempt with outcome `ok`.
pub open spec fn spec_record_attempt(s: RetryState, ok: bool) -> RetryState {
    if ok {
        RetryState { last_ok: true, continue_err: 0 }
    } else {
        RetryState {
            last_ok: false,
            continue_err: if s.continue_err < FAILURE_CAP {
                (s.continue_err + 1) as u32
            } else {
                FAILURE_CAP
            },
        }
    }
}

impl RetryState {
    /// The state of a loop that has not failed yet.
    pub fn new() -> (r: RetryState)
        ensures
            r.last_ok,
            r.continue_err == 0,
    {
        RetryState { last_ok: true, continue_err: 0 }
    }

    /// Seconds the loop sleeps before its next bind attempt: nothing after a
    /// success, `max(min(continue_err, FAILURE_CAP), 1)` after a failure.
    pub fn wait_secs(&self) -> (r: u64)
        ensures
            r == spec_wait_secs(*self),
    {
        if self.last_ok {
            0
        } else if self.continue_err < 1 {
            1
        } else if self.continue_err > FAILURE_CAP {
            FAILURE_CAP as u64
        } else {
            self.continue_err as u64
        }
    }

    /// Records the outcome of one bind attempt: success resets the counter,
    /// failure increments it, saturating at [`FAILURE_CAP`].
    pub fn record_attempt(&mut self, ok: bool)
        ensures
            *final(self) == spec_record_attempt(*old(self), ok),
    {
        if ok {
            self.last_ok = true;
            self.continue_err = 0;
        } else {
            self.last_ok = false;
            if self.continue_err < FAILURE_CAP {
                self.continue_err = self.continue_err + 1;
            } else {
                self.continue_err = FAILURE_CAP;
            }
        }
    }
}

/// After two consecutive bind failures of a fresh loop, the supervisor waits
/// exactly 2 seconds before the third attempt.
pub proof fn lemma_backoff_after_two_failures(s0: RetryState)
    requires
        s0.last_ok,
        s0.continue_err == 0,
    ensures
        spec_wait_secs(spec_record_attempt(spec_record_attempt(s0, false), false)) == 2,
{
}

/// The wait never exceeds `FAILURE_CAP` seconds, and once the failure
/// counter has reached the cap a further failure still waits exactly
/// `FAILURE_CAP` seconds.
pub proof fn lemma_backoff_cap(s: RetryState)
    ensures
        spec_wait_secs(s) <= FAILURE_CAP as u64,
        spec_wait_secs(spec_record_attempt(s, false)) >= 1,
        s.continue_err >= FAILURE_CAP ==> spec_wait_secs(spec_record_attempt(s, false))
            == FAILURE_CAP as u64,
{
}

} // verus!
