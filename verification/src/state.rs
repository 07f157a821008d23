//! Cancellation controller and shared job state: a stop flag plus the
//! pacing gate. The surrounding runtime shares one value of this across all
//! workers of a job (behind its own locking) and owns the broadcast
//! wake-up; the flag and re-arm semantics are decided here.

use crate::ratelimit::RateLimiter;
use vstd::prelude::*;

verus! {

/// Shared translator state: one per application, reused across jobs.
pub struct TranslatorState {
    pub stop_flag: bool,
    pub rate_limiter: RateLimiter,
}

impl TranslatorState {
    /// Fresh state: no stop requested, pacing gate in the remote past.
    pub fn new() -> (r: Self)
        ensures
            r.stop_flag == false,
            r.rate_limiter.last_request == 0,
    {
        TranslatorState { stop_flag: false, rate_limiter: RateLimiter::new() }
    }

    /// Requests cancellation of whatever job is running: sets the stop flag
    /// (idempotently); the caller must then broadcast its wake-up signal so
    /// every suspended worker observes the flag.
    pub fn request_stop(&mut self)
        ensures
            final(self).stop_flag == true,
            final(self).rate_limiter == old(self).rate_limiter,
    {
        self.stop_flag = true;
    }

    /// Re-arms the state at the start of a new job: clears the stop flag,
    /// so a stop requested against a previous, already-finished job cannot
    /// spuriously cancel this one. The caller must install a fresh wake-up
    /// signal at the same moment.
    pub fn arm_new_job(&mut self)
        ensures
            final(self).stop_flag == false,
            final(self).rate_limiter == old(self).rate_limiter,
    {
        self.stop_flag = false;
    }
}

} // verus!
