use translator_core::buffer::OutputBuffer;
use translator_core::job::TranslationJob;
use translator_core::partition::{initial_output, work_items};

fn lines(v: &[&str]) -> Vec<String> {
    v.iter().map(|s| s.to_string()).collect()
}

#[test]
fn merge_writes_only_its_indices() {
    let mut buf = OutputBuffer::new(lines(&["0:::meta", "1:::", "2:::", "3:::"]));
    buf.merge(&vec![1, 2], &lines(&["1:::Bonjour", "2:::Monde"]));
    assert_eq!(buf.lines, lines(&["0:::meta", "1:::Bonjour", "2:::Monde", "3:::"]));
    assert_eq!(buf.len(), 4);
}

#[test]
fn try_merge_rejects_malformed_batches() {
    let mut buf = OutputBuffer::new(lines(&["a", "b"]));
    assert!(!buf.try_merge(&vec![0], &lines(&["x", "y"])));
    assert!(!buf.try_merge(&vec![0, 2], &lines(&["x", "y"])));
    assert!(!buf.try_merge(&vec![1, 1], &lines(&["x", "y"])));
    assert_eq!(buf.lines, lines(&["a", "b"]));
    assert!(buf.try_merge(&vec![1, 0], &lines(&["x", "y"])));
    assert_eq!(buf.lines, lines(&["y", "x"]));
}

#[test]
fn snapshot_is_newline_separated() {
    let buf = OutputBuffer::new(lines(&["0:::meta", "1:::", "2:::Monde"]));
    assert_eq!(buf.snapshot_text(), "0:::meta\n1:::\n2:::Monde");
    let empty = OutputBuffer::new(Vec::new());
    assert_eq!(empty.snapshot_text(), "");
}

#[test]
fn finalize_is_gated_on_the_stop_flag() {
    let buf = OutputBuffer::new(lines(&["0:::meta", "1:::Bonjour"]));
    assert!(buf.finalize(true).is_none());
    assert_eq!(buf.finalize(false).unwrap(), "0:::meta\n1:::Bonjour\n");
}

#[test]
fn cancelled_job_snapshot_mixes_done_and_placeholder() {
    // a stop arrives after the first of two batches completed
    let raw = lines(&["0:::meta", "1:::Hello", "2:::World", "3:::Again"]);
    let seeded = initial_output(&raw);
    let _items = work_items(&raw);
    let mut buf = OutputBuffer::new(seeded);
    buf.merge(&vec![1, 2], &lines(&["1:::Bonjour", "2:::Monde"]));
    // no final file is produced ...
    assert!(buf.finalize(true).is_none());
    // ... and the snapshot shows translated and not-yet-translated lines
    assert_eq!(buf.snapshot_text(), "0:::meta\n1:::Bonjour\n2:::Monde\n3:::");
}

#[test]
fn job_merges_exactly_its_batch() {
    let raw = lines(&["0:::meta", "1:::Hello", "2:::World", "3:::Again"]);
    let mut job = TranslationJob::plan(&raw, 2);
    assert_eq!(job.total_batches, 2);
    assert_eq!(job.buffer.lines, lines(&["0:::meta", "1:::", "2:::", "3:::"]));
    job.merge_batch(0, &lines(&["1:::Bonjour", "2:::Monde"]));
    assert_eq!(job.buffer.lines, lines(&["0:::meta", "1:::Bonjour", "2:::Monde", "3:::"]));
    job.merge_batch(1, &lines(&["3:::Encore"]));
    assert_eq!(
        job.buffer.finalize(false).unwrap(),
        "0:::meta\n1:::Bonjour\n2:::Monde\n3:::Encore\n"
    );
}
