use translator_core::progress::{batch_done_event, finished_event, killed_event,
    overall_progress_event, processing_event, received_chars_event, started_event,
    stream_fragment_event, thread_log_line, usize_to_string};

#[test]
fn decimal_rendering() {
    assert_eq!(usize_to_string(0), "0");
    assert_eq!(usize_to_string(7), "7");
    assert_eq!(usize_to_string(10), "10");
    assert_eq!(usize_to_string(105), "105");
    assert_eq!(usize_to_string(98765), "98765");
}

#[test]
fn aggregate_events_use_identity_zero() {
    let ev = started_event(12);
    assert_eq!(ev.thread_id, 0);
    assert_eq!(ev.total, 12);
    assert_eq!(ev.message, "Started. 12 Batches.");
    assert!(!ev.append);

    let ev = overall_progress_event(3, 12);
    assert_eq!(ev.thread_id, 0);
    assert_eq!(ev.current, 3);
    assert_eq!(ev.message, "Progress: 3/12 Batches");

    let ev = finished_event(12);
    assert_eq!(ev.message, "Finished.");
    assert_eq!(ev.current, 12);

    let ev = killed_event();
    assert_eq!(ev.message, "KILLED.");
    assert_eq!(ev.thread_id, 0);
}

#[test]
fn worker_events_carry_their_identity() {
    let ev = processing_event(4, 10, "21", "30");
    assert_eq!(ev.thread_id, 4);
    assert_eq!(ev.total, 10);
    assert_eq!(ev.message, "Processing 21-30");
    assert!(!ev.append);

    let ev = batch_done_event(4, 10);
    assert_eq!(ev.message, "Done.");
    assert_eq!(ev.current, 10);

    let ev = stream_fragment_event(4, 10, "Bon".to_string());
    assert!(ev.append);
    assert_eq!(ev.message, "Bon");

    let ev = received_chars_event(4, 10, 42);
    assert!(ev.append);
    assert_eq!(ev.message, "Received 42 chars");
}

#[test]
fn thread_log_line_format() {
    assert_eq!(thread_log_line(3, "21", "30"), "Thread 3: 21-30\n");
}
