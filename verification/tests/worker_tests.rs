use translator_core::progress::retry_error_event;
use translator_core::worker::{step, WorkerAction, WorkerEvent, WorkerPhase};

#[test]
fn happy_path_reaches_succeeded_with_one_merge() {
    let (p, a) = step(WorkerPhase::Ready, WorkerEvent::StopClear);
    assert_eq!(a, WorkerAction::StartWait);
    let (p, a) = step(p, WorkerEvent::WaitDone);
    assert_eq!(a, WorkerAction::StartCall);
    let (p, a) = step(p, WorkerEvent::CallOk);
    assert_eq!(p, WorkerPhase::Succeeded);
    assert_eq!(a, WorkerAction::Merge);
}

#[test]
fn two_failures_then_success_reports_twice_and_merges_once() {
    // an API call that fails twice with a server error, then succeeds
    let mut phase = WorkerPhase::Ready;
    let trace = vec![
        WorkerEvent::StopClear,
        WorkerEvent::WaitDone,
        WorkerEvent::CallErr,
        WorkerEvent::SleepDone,
        WorkerEvent::StopClear,
        WorkerEvent::WaitDone,
        WorkerEvent::CallErr,
        WorkerEvent::SleepDone,
        WorkerEvent::StopClear,
        WorkerEvent::WaitDone,
        WorkerEvent::CallOk,
    ];
    let mut reports = 0;
    let mut merges = 0;
    for e in trace {
        let (p, a) = step(phase, e);
        phase = p;
        if a == WorkerAction::ReportErrorAndBackoff {
            reports += 1;
            assert_eq!(merges, 0, "errors are reported before the success");
        }
        if a == WorkerAction::Merge {
            merges += 1;
        }
    }
    assert_eq!(reports, 2);
    assert_eq!(merges, 1);
    assert_eq!(phase, WorkerPhase::Succeeded);
    // the error report is an append-mode message tagged to the worker
    let ev = retry_error_event(3, 2, "API Status: 500");
    assert!(ev.append);
    assert_eq!(ev.thread_id, 3);
    assert_eq!(ev.message, "Error: API Status: 500. Retrying...");
}

#[test]
fn stop_flag_cancels_at_loop_head() {
    let (p, a) = step(WorkerPhase::Ready, WorkerEvent::StopSeen);
    assert_eq!(p, WorkerPhase::Cancelled);
    assert_eq!(a, WorkerAction::Exit);
}

#[test]
fn kill_broadcast_cancels_either_suspension() {
    let (p, a) = step(WorkerPhase::Waiting, WorkerEvent::Killed);
    assert_eq!(p, WorkerPhase::Cancelled);
    assert_eq!(a, WorkerAction::Exit);
    let (p, a) = step(WorkerPhase::InFlight, WorkerEvent::Killed);
    assert_eq!(p, WorkerPhase::Cancelled);
    assert_eq!(a, WorkerAction::Exit);
}

#[test]
fn terminal_phases_never_move_or_act() {
    let events = vec![
        WorkerEvent::StopSeen,
        WorkerEvent::StopClear,
        WorkerEvent::WaitDone,
        WorkerEvent::Killed,
        WorkerEvent::CallOk,
        WorkerEvent::CallErr,
        WorkerEvent::SleepDone,
    ];
    for e in &events {
        let (p, a) = step(WorkerPhase::Succeeded, *e);
        assert_eq!(p, WorkerPhase::Succeeded);
        assert_eq!(a, WorkerAction::Nothing);
        let (p, a) = step(WorkerPhase::Cancelled, *e);
        assert_eq!(p, WorkerPhase::Cancelled);
        assert_eq!(a, WorkerAction::Nothing);
    }
}
