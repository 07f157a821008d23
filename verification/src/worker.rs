//! Per-batch dispatch unit, modelled as an explicit state machine. The
//! surrounding runtime performs the suspensions (pacing wait, HTTP call,
//! backoff sleep) and feeds the outcome back as an event; this module owns
//! every decision of the retry loop: retry indefinitely until the one
//! success, or exit on cancellation — the only two terminal states.

use vstd::prelude::*;

verus! {

/// Where one dispatch unit stands in its retry loop.
#[derive(PartialEq, Eq, Structural, Clone, Copy, Debug)]
pub enum WorkerPhase {
    /// About to start an attempt; checks the stop flag first.
    Ready,
    /// Suspended on the pacing gate, raced against the kill signal.
    Waiting,
    /// Suspended on the API call, raced against the kill signal.
    InFlight,
    /// Attempt failed; suspended on the fixed retry backoff.
    Backoff,
    /// The batch's results were merged; terminal.
    Succeeded,
    /// Cancellation was observed; terminal.
    Cancelled,
}

/// What the runtime observed at the unit's current suspension point.
#[derive(PartialEq, Eq, Structural, Clone, Copy, Debug)]
pub enum WorkerEvent {
    /// The stop flag was read set at the loop head.
    StopSeen,
    /// The stop flag was read clear at the loop head.
    StopClear,
    /// The pacing wait elapsed.
    WaitDone,
    /// The kill broadcast won a race against the current suspension.
    Killed,
    /// The API call returned the batch's translated lines.
    CallOk,
    /// The API call failed (transport, status or decode).
    CallErr,
    /// The retry backoff elapsed.
    SleepDone,
}

/// What the unit asks the runtime to do next.
#[derive(PartialEq, Eq, Structural, Clone, Copy, Debug)]
pub enum WorkerAction {
    /// Suspend on the pacing gate, racing the kill signal.
    StartWait,
    /// Dispatch the API call, racing the kill signal.
    StartCall,
    /// Merge the returned lines into the output buffer, snapshot, and
    /// report success; happens exactly once per unit.
    Merge,
    /// Report the error with retry context and sleep the fixed backoff.
    ReportErrorAndBackoff,
    /// The unit is finished; release its slot.
    Exit,
    /// No effect (event did not apply to the current phase).
    Nothing,
}

/// The transition function of the retry loop: next phase and the action the
/// runtime must perform. Events that cannot occur in a phase leave the
/// machine unchanged.
pub open spec fn spec_step(phase: WorkerPhase, event: WorkerEvent) -> (WorkerPhase, WorkerAction) {
    match (phase, event) {
        (WorkerPhase::Ready, WorkerEvent::StopSeen) => (WorkerPhase::Cancelled, WorkerAction::Exit),
        (WorkerPhase::Ready, WorkerEvent::StopClear) => (
            WorkerPhase::Waiting,
            WorkerAction::StartWait,
        ),
        (WorkerPhase::Waiting, WorkerEvent::WaitDone) => (
            WorkerPhase::InFlight,
            WorkerAction::StartCall,
        ),
        (WorkerPhase::Waiting, WorkerEvent::Killed) => (
            WorkerPhase::Cancelled,
            WorkerAction::Exit,
        ),
        (WorkerPhase::InFlight, WorkerEvent::CallOk) => (
            WorkerPhase::Succeeded,
            WorkerAction::Merge,
        ),
        (WorkerPhase::InFlight, WorkerEvent::CallErr) => (
            WorkerPhase::Backoff,
            WorkerAction::ReportErrorAndBackoff,
        ),
        (WorkerPhase::InFlight, WorkerEvent::Killed) => (
            WorkerPhase::Cancelled,
            WorkerAction::Exit,
        ),
        (WorkerPhase::Backoff, WorkerEvent::SleepDone) => (WorkerPhase::Ready, WorkerAction::Nothing),
        _ => (phase, WorkerAction::Nothing),
    }
}

/// Executable transition function; exactly `spec_step`.
pub fn step(phase: WorkerPhase, event: WorkerEvent) -> (r: (WorkerPhase, WorkerAction))
    ensures
        r == spec_step(phase, event),
{
    match (phase, event) {
        (WorkerPhase::Ready, WorkerEvent::StopSeen) => (WorkerPhase::Cancelled, WorkerAction::Exit),
        (WorkerPhase::Ready, WorkerEvent::StopClear) => (
            WorkerPhase::Waiting,
            WorkerAction::StartWait,
        ),
        (WorkerPhase::Waiting, WorkerEvent::WaitDone) => (
            WorkerPhase::InFlight,
            WorkerAction::StartCall,
        ),
        (WorkerPhase::Waiting, WorkerEvent::Killed) => (
            WorkerPhase::Cancelled,
            WorkerAction::Exit,
        ),
        (WorkerPhase::InFlight, WorkerEvent::CallOk) => (
            WorkerPhase::Succeeded,
            WorkerAction::Merge,
        ),
        (WorkerPhase::InFlight, WorkerEvent::CallErr) => (
            WorkerPhase::Backoff,
            WorkerAction::ReportErrorAndBackoff,
        ),
        (WorkerPhase::InFlight, WorkerEvent::Killed) => (
            WorkerPhase::Cancelled,
            WorkerAction::Exit,
        ),
        (WorkerPhase::Backoff, WorkerEvent::SleepDone) => (WorkerPhase::Ready, WorkerAction::Nothing),
        _ => (phase, WorkerAction::Nothing),
    }
}

/// The phase reached after running a whole event trace.
pub open spec fn run_trace(phase: WorkerPhase, events: Seq<WorkerEvent>) -> WorkerPhase
    decreases events.len(),
{
    if events.len() == 0 {
        phase
    } else {
        run_trace(spec_step(phase, events[0]).0, events.drop_first())
    }
}

/// How many merges a whole event trace performs.
pub open spec fn count_merges(phase: WorkerPhase, events: Seq<WorkerEvent>) -> nat
    decreases events.len(),
{
    if events.len() == 0 {
        0
    } else {
        let (next, action) = spec_step(phase, events[0]);
        (if action == WorkerAction::Merge {
            1nat
        } else {
            0nat
        }) + count_merges(next, events.drop_first())
    }
}

/// A merge happens only on the one transition that leaves `InFlight` for
/// `Succeeded`; both terminal phases never move again and never act.
pub proof fn lemma_step_invariants(phase: WorkerPhase, event: WorkerEvent)
    ensures
        spec_step(phase, event).1 == WorkerAction::Merge ==> phase == WorkerPhase::InFlight
            && spec_step(phase, event).0 == WorkerPhase::Succeeded,
        phase == WorkerPhase::Succeeded ==> spec_step(phase, event) == (
            phase,
            WorkerAction::Nothing,
        ),
        phase == WorkerPhase::Cancelled ==> spec_step(phase, event) == (
            phase,
            WorkerAction::Nothing,
        ),
{
}

/// Success is recorded at most once: whatever events the runtime feeds one
/// dispatch unit, its trace performs at most one merge — and none at all
/// once the unit is `Succeeded` or `Cancelled`.
pub proof fn lemma_at_most_one_merge(phase: WorkerPhase, events: Seq<WorkerEvent>)
    ensures
        count_merges(phase, events) <= 1,
        phase == WorkerPhase::Succeeded ==> count_merges(phase, events) == 0,
        phase == WorkerPhase::Cancelled ==> count_merges(phase, events) == 0,
    decreases events.len(),
{
    if events.len() > 0 {
        let (next, action) = spec_step(phase, events[0]);
        lemma_at_most_one_merge(next, events.drop_first());
    }
}

/// Cancellation is absorbing: once `Cancelled`, the unit stays `Cancelled`
/// for any further events — no later event can revive it or make it merge.
pub proof fn lemma_cancelled_stays(events: Seq<WorkerEvent>)
    ensures
        run_trace(WorkerPhase::Cancelled, events) == WorkerPhase::Cancelled,
        count_merges(WorkerPhase::Cancelled, events) == 0,
    decreases events.len(),
{
    if events.len() > 0 {
        lemma_cancelled_stays(events.drop_first());
    }
}

} // verus!
