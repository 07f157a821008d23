//! Shared pacing gate: serializes request dispatch times so that consecutive
//! dispatches are spaced at least one configured delay apart. The caller owns
//! the clock and the actual suspension: `reserve` only computes and records
//! the next dispatch time; whoever called it then sleeps until that time.

use vstd::prelude::*;

verus! {

/// The dispatch time a call is entitled to: the current time, or one delay
/// after the previously recorded dispatch, whichever is later. With no
/// pacing (`delay == 0`) the current time is returned unchanged.
pub open spec fn spec_target(last: nat, now: nat, delay: nat) -> nat {
    if delay == 0 {
        now
    } else if now >= last + delay {
        now
    } else {
        last + delay
    }
}

/// The recorded dispatch time after a call: unchanged when no pacing is
/// requested, otherwise advanced to the granted dispatch time.
pub open spec fn spec_advance(last: nat, now: nat, delay: nat) -> nat {
    if delay == 0 {
        last
    } else {
        spec_target(last, now, delay)
    }
}

/// Pacing gate. All workers of one job share a single gate; the stored time
/// is the most recently granted dispatch time, in milliseconds.
pub struct RateLimiter {
    pub last_request: u64,
}

impl RateLimiter {
    /// A fresh gate whose recorded time lies in the remote past, so the
    /// first caller is never delayed.
    pub fn new() -> (r: Self)
        ensures
            r.last_request == 0,
    {
        RateLimiter { last_request: 0 }
    }

    /// Read-and-advance under one critical section: grants the caller a
    /// dispatch time at least `delay_ms` after the previously granted one,
    /// and records it. The caller must then suspend until the returned time.
    /// `delay_ms == 0` means no pacing: the call returns `now_ms` at once
    /// and records nothing, so it never causes a suspension.
    pub fn reserve(&mut self, now_ms: u64, delay_ms: u64) -> (target: u64)
        requires
            old(self).last_request + delay_ms <= u64::MAX,
        ensures
            target == spec_target(old(self).last_request as nat, now_ms as nat, delay_ms as nat),
            final(self).last_request == spec_advance(
                old(self).last_request as nat,
                now_ms as nat,
                delay_ms as nat,
            ),
            target >= now_ms,
            delay_ms == 0 ==> target == now_ms && final(self).last_request == old(
                self,
            ).last_request,
    {
        if delay_ms == 0 {
            return now_ms;
        }
        let earliest = self.last_request + delay_ms;
        let target = if now_ms >= earliest {
            now_ms
        } else {
            earliest
        };
        self.last_request = target;
        target
    }
}

/// The dispatch times granted to a sequence of callers arriving at the clock
/// readings `nows`, starting from a recorded time `last`.
pub open spec fn spec_dispatch_times(last: nat, nows: Seq<nat>, delay: nat) -> Seq<nat>
    decreases nows.len(),
{
    if nows.len() == 0 {
        Seq::empty()
    } else {
        let t = spec_target(last, nows[0], delay);
        let rest = spec_dispatch_times(
            spec_advance(last, nows[0], delay),
            nows.drop_first(),
            delay,
        );
        seq![t] + rest
    }
}

/// Pacing law: for any sequence of callers, in any arrival order and at any
/// clock readings, the granted dispatch times are monotonically
/// non-decreasing, and when pacing is requested (`delay > 0`) consecutive
/// granted times differ by at least `delay`.
pub proof fn lemma_rate_limiter_paced(last: nat, nows: Seq<nat>, delay: nat)
    ensures
        spec_dispatch_times(last, nows, delay).len() == nows.len(),
        delay > 0 ==> forall|i: int, j: int|
            0 <= i < j < nows.len() ==> spec_dispatch_times(last, nows, delay)[i] + delay
                <= spec_dispatch_times(last, nows, delay)[j],
        forall|i: int|
            0 <= i < nows.len() ==> #[trigger] spec_dispatch_times(last, nows, delay)[i]
                >= nows[i],
    decreases nows.len(),
{
    let times = spec_dispatch_times(last, nows, delay);
    if nows.len() > 0 {
        let last2 = spec_advance(last, nows[0], delay);
        let rest = spec_dispatch_times(last2, nows.drop_first(), delay);
        lemma_rate_limiter_paced(last2, nows.drop_first(), delay);
        assert forall|i: int| 0 <= i < nows.len() implies #[trigger] times[i] >= nows[i] by {
            if i > 0 {
                assert(times[i] == rest[i - 1]);
                assert(nows[i] == nows.drop_first()[i - 1]);
            }
        }
        if delay > 0 {
            lemma_dispatch_times_bounded_below(last2, nows.drop_first(), delay);
            assert forall|i: int, j: int| 0 <= i < j < nows.len() implies times[i] + delay
                <= times[j] by {
                if i == 0 {
                    assert(times[0] == spec_target(last, nows[0], delay));
                    assert(last2 == times[0]);
                    assert(times[j] == rest[j - 1]);
                } else {
                    assert(times[i] == rest[i - 1]);
                    assert(times[j] == rest[j - 1]);
                }
            }
        }
    }
}

/// Every granted dispatch time lies at least one delay after the recorded
/// time the sequence started from (when pacing is requested).
proof fn lemma_dispatch_times_bounded_below(last: nat, nows: Seq<nat>, delay: nat)
    requires
        delay > 0,
    ensures
        spec_dispatch_times(last, nows, delay).len() == nows.len(),
        forall|i: int|
            0 <= i < nows.len() ==> #[trigger] spec_dispatch_times(last, nows, delay)[i]
                >= last + delay,
    decreases nows.len(),
{
    if nows.len() > 0 {
        let last2 = spec_advance(last, nows[0], delay);
        let rest = spec_dispatch_times(last2, nows.drop_first(), delay);
        lemma_dispatch_times_bounded_below(last2, nows.drop_first(), delay);
        assert forall|i: int| 0 <= i < nows.len() implies #[trigger] spec_dispatch_times(
            last,
            nows,
            delay,
        )[i] >= last + delay by {
            if i > 0 {
                assert(spec_dispatch_times(last, nows, delay)[i] == rest[i - 1]);
                assert(last2 >= last);
            }
        }
    }
}


/// Companion to the pacing law: with pacing requested, the granted dispatch
/// times are monotonically non-decreasing.
pub proof fn lemma_rate_limiter_monotone(last: nat, nows: Seq<nat>, delay: nat)
    requires
        delay > 0,
    ensures
        forall|i: int, j: int|
            0 <= i <= j < nows.len() ==> spec_dispatch_times(last, nows, delay)[i]
                <= spec_dispatch_times(last, nows, delay)[j],
{
    lemma_rate_limiter_paced(last, nows, delay);
    assert forall|i: int, j: int|
        0 <= i <= j < nows.len() implies spec_dispatch_times(last, nows, delay)[i]
        <= spec_dispatch_times(last, nows, delay)[j] by {
        if i < j {
            assert(spec_dispatch_times(last, nows, delay)[i] + delay <= spec_dispatch_times(
                last,
                nows,
                delay,
            )[j]);
        }
    }
}

} // verus!
