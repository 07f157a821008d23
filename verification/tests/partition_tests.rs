use translator_core::partition::{batch_indices, batch_lines, has_header, initial_output,
    make_batches, work_items};

fn lines(v: &[&str]) -> Vec<String> {
    v.iter().map(|s| s.to_string()).collect()
}

#[test]
fn header_detected_only_on_id_zero() {
    assert!(has_header(&lines(&["0:::meta", "1:::a"])));
    assert!(!has_header(&lines(&["1:::a", "0:::meta"])));
    assert!(!has_header(&lines(&["0::meta"])));
    assert!(!has_header(&lines(&[])));
}

#[test]
fn initial_output_seeds_placeholders() {
    let raw = lines(&["0:::meta", "1:::Hello", " 2 :::World", "no id line", ""]);
    let out = initial_output(&raw);
    assert_eq!(out.len(), raw.len());
    assert_eq!(out[0], "0:::meta");
    assert_eq!(out[1], "1:::");
    assert_eq!(out[2], "2:::");
    assert_eq!(out[3], "no id line");
    assert_eq!(out[4], "");
}

#[test]
fn initial_output_without_header_resets_first_line_too() {
    let raw = lines(&["1:::Hello", "2:::World"]);
    let out = initial_output(&raw);
    assert_eq!(out, lines(&["1:::", "2:::"]));
}

#[test]
fn work_items_skip_header_and_keep_indices() {
    let raw = lines(&["0:::meta", "1:::Hello", "2:::World"]);
    let items = work_items(&raw);
    assert_eq!(items.len(), 2);
    assert_eq!(items[0].index, 1);
    assert_eq!(items[0].line, "1:::Hello");
    assert_eq!(items[1].index, 2);
    assert_eq!(items[1].line, "2:::World");
}

#[test]
fn batches_are_contiguous_chunks() {
    let raw = lines(&["1:::a", "2:::b", "3:::c", "4:::d", "5:::e"]);
    let items = work_items(&raw);
    let batches = make_batches(&items, 2);
    assert_eq!(batches.len(), 3);
    assert_eq!(batches[0].len(), 2);
    assert_eq!(batches[1].len(), 2);
    assert_eq!(batches[2].len(), 1);
    assert_eq!(batch_indices(&batches[0]), vec![0, 1]);
    assert_eq!(batch_indices(&batches[1]), vec![2, 3]);
    assert_eq!(batch_indices(&batches[2]), vec![4]);
    assert_eq!(batch_lines(&batches[2]), lines(&["5:::e"]));
}

#[test]
fn batch_size_zero_means_one() {
    let raw = lines(&["1:::a", "2:::b"]);
    let items = work_items(&raw);
    let batches = make_batches(&items, 0);
    assert_eq!(batches.len(), 2);
    assert_eq!(batches[0].len(), 1);
    assert_eq!(batches[1].len(), 1);
}

#[test]
fn empty_input_yields_zero_batches() {
    let raw: Vec<String> = Vec::new();
    let out = initial_output(&raw);
    assert_eq!(out.len(), 0);
    let items = work_items(&raw);
    let batches = make_batches(&items, 4);
    assert_eq!(batches.len(), 0);
}
