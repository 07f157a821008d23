use translator_core::ratelimit::RateLimiter;
use translator_core::state::TranslatorState;

#[test]
fn first_caller_is_not_delayed() {
    let mut rl = RateLimiter::new();
    assert_eq!(rl.last_request, 0);
    let t = rl.reserve(1000, 500);
    assert_eq!(t, 1000);
    assert_eq!(rl.last_request, 1000);
}

#[test]
fn rapid_callers_are_spaced_by_the_delay() {
    let mut rl = RateLimiter::new();
    // three workers arriving almost at once are serialized 500 ms apart
    let t1 = rl.reserve(1000, 500);
    let t2 = rl.reserve(1001, 500);
    let t3 = rl.reserve(1002, 500);
    assert_eq!(t1, 1000);
    assert_eq!(t2, 1500);
    assert_eq!(t3, 2000);
}

#[test]
fn slow_caller_is_not_delayed() {
    let mut rl = RateLimiter::new();
    let t1 = rl.reserve(1000, 500);
    let t2 = rl.reserve(2500, 500);
    assert_eq!(t1, 1000);
    assert_eq!(t2, 2500);
}

#[test]
fn zero_delay_never_suspends_or_records() {
    let mut rl = RateLimiter::new();
    let t1 = rl.reserve(1000, 500);
    assert_eq!(t1, 1000);
    let t2 = rl.reserve(1, 0);
    // no pacing: the caller's own time comes back and nothing is recorded
    assert_eq!(t2, 1);
    assert_eq!(rl.last_request, 1000);
}

#[test]
fn stop_flag_set_and_rearmed() {
    let mut st = TranslatorState::new();
    assert!(!st.stop_flag);
    st.request_stop();
    assert!(st.stop_flag);
    st.request_stop();
    assert!(st.stop_flag);
    st.arm_new_job();
    assert!(!st.stop_flag);
}
