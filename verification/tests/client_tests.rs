use translator_core::buffer::OutputBuffer;
use translator_core::client::{batch_edge_id, build_prompt, build_request, build_url, map_results,
    parse_single_response, split_lines_nl, SingleResponse, StreamDecoder};
use translator_core::config::TranslatorConfig;
use translator_core::partition::{batch_indices, batch_lines, initial_output, make_batches,
    work_items};

fn lines(v: &[&str]) -> Vec<String> {
    v.iter().map(|s| s.to_string()).collect()
}

fn config() -> TranslatorConfig {
    TranslatorConfig {
        base_url: "http://localhost:8080/v1/".to_string(),
        api_key: "SECRET-REDACTED".to_string(),
        model: "test-model".to_string(),
        system_prompt: "Translate.".to_string(),
        max_tokens: Some(256),
        top_k: None,
        stream: false,
        threads: 1,
        batch_size: 2,
        delay_ms: 0,
        last_file: String::new(),
    }
}

#[test]
fn url_strips_trailing_slashes() {
    assert_eq!(build_url("http://localhost:8080/v1/"), "http://localhost:8080/v1/chat/completions");
    assert_eq!(build_url("http://h//"), "http://h/chat/completions");
    assert_eq!(build_url("http://h"), "http://h/chat/completions");
}

#[test]
fn prompt_joins_lines_and_appends_reminder() {
    let p = build_prompt(&lines(&["1:::Hello", "2:::World"]));
    assert_eq!(p, "1:::Hello\n2:::World\n\nREMINDER: Format 'ID:::TranslatedText'.");
}

#[test]
fn request_carries_config_and_prompt() {
    let req = build_request(&config(), &lines(&["1:::Hello"]));
    assert_eq!(req.url, "http://localhost:8080/v1/chat/completions");
    assert_eq!(req.api_key, "SECRET-REDACTED");
    assert_eq!(req.model, "test-model");
    assert_eq!(req.system_prompt, "Translate.");
    assert_eq!(req.user_prompt, "1:::Hello\n\nREMINDER: Format 'ID:::TranslatedText'.");
    assert!(!req.stream);
    assert_eq!(req.max_tokens, Some(256));
    assert_eq!(req.top_k, None);
}

#[test]
fn split_lines_keeps_empty_segments() {
    let parts = split_lines_nl("a\n\nb");
    assert_eq!(parts, lines(&["a", "", "b"]));
    assert_eq!(split_lines_nl(""), lines(&[""]));
    assert_eq!(split_lines_nl("x\n"), lines(&["x", ""]));
}

#[test]
fn single_response_extracts_message_content() {
    let body = "{\"choices\":[{\"message\":{\"content\":\"1:::Bonjour\\n2:::Monde\"}}]}";
    match parse_single_response(body) {
        SingleResponse::Content(s) => assert_eq!(s, "1:::Bonjour\n2:::Monde"),
        other => panic!("expected content, got {:?}", other),
    }
}

#[test]
fn single_response_tells_decode_errors_from_missing_content() {
    // not JSON at all: a decode error, to be reported and retried
    assert!(matches!(parse_single_response("not json"), SingleResponse::Invalid));
    assert!(matches!(parse_single_response(""), SingleResponse::Invalid));
    // a truncated body is a decode error too
    assert!(matches!(
        parse_single_response("{\"choices\":[{\"mess"),
        SingleResponse::Invalid
    ));
    // well-formed JSON that merely lacks the content field is not an error
    assert!(matches!(parse_single_response("{\"choices\":[]}"), SingleResponse::NoContent));
    assert!(matches!(parse_single_response("{}"), SingleResponse::NoContent));
}

#[test]
fn decoder_accumulates_streamed_deltas() {
    let mut dec = StreamDecoder::new();
    let frags = dec.feed(
        &b"data: {\"choices\":[{\"delta\":{\"content\":\"Bon\"}}]}\n".to_vec(),
    );
    assert_eq!(frags, lines(&["Bon"]));
    let frags = dec.feed(
        &b"data: {\"choices\":[{\"delta\":{\"content\":\"jour\"}}]}\ndata: [DONE]\n".to_vec(),
    );
    assert_eq!(frags, lines(&["jour"]));
    assert_eq!(dec.content, "Bonjour");
}

#[test]
fn decoder_handles_frames_split_across_chunks() {
    let mut dec = StreamDecoder::new();
    let whole = b"data: {\"choices\":[{\"delta\":{\"content\":\"Monde\"}}]}\n";
    let frags = dec.feed(&whole[..20].to_vec());
    assert!(frags.is_empty());
    let frags = dec.feed(&whole[20..].to_vec());
    assert_eq!(frags, lines(&["Monde"]));
    assert_eq!(dec.content, "Monde");
}

#[test]
fn decoder_flushes_residual_partial_frame() {
    let mut dec = StreamDecoder::new();
    // no trailing newline: the frame stays buffered until the flush
    let frags = dec.feed(&b"data: {\"choices\":[{\"delta\":{\"content\":\"Fin\"}}]}".to_vec());
    assert!(frags.is_empty());
    assert_eq!(dec.content, "");
    dec.finish();
    assert_eq!(dec.content, "Fin");
    assert!(dec.buf.is_empty());
}

#[test]
fn decoder_ignores_other_lines() {
    let mut dec = StreamDecoder::new();
    let frags = dec.feed(&b"event: ping\n\ndata: not json\n".to_vec());
    assert!(frags.is_empty());
    assert_eq!(dec.content, "");
}

#[test]
fn mapping_joins_ids_back_to_lines() {
    let batch = lines(&["1:::Hello", "2:::World"]);
    let out = map_results(&batch, "1:::Bonjour\n2:::Monde");
    assert_eq!(out, lines(&["1:::Bonjour", "2:::Monde"]));
}

#[test]
fn mapping_last_occurrence_wins() {
    let batch = lines(&["1:::Hello"]);
    let out = map_results(&batch, "1:::first\n1:::second");
    assert_eq!(out, lines(&["1:::second"]));
}

#[test]
fn mapping_leaves_unmatched_lines_untranslated() {
    let batch = lines(&["1:::Hello", "2:::World"]);
    let out = map_results(&batch, "1:::Bonjour");
    assert_eq!(out, lines(&["1:::Bonjour", "2:::World"]));
}

#[test]
fn mapping_passes_non_id_lines_through() {
    // a line without the separator is never translated, whatever came back
    let batch = lines(&["just text", "", ":::empty id"]);
    let out = map_results(&batch, "just text:::X\n:::Y");
    assert_eq!(out, lines(&["just text", "", ":::empty id"]));
}

#[test]
fn mapping_trims_returned_ids_and_text() {
    let batch = lines(&["7:::seven"]);
    let out = map_results(&batch, " 7 :::  sept  ");
    assert_eq!(out, lines(&["7:::sept"]));
}

#[test]
fn edge_ids_for_logging() {
    assert_eq!(batch_edge_id("12:::text"), "12");
    assert_eq!(batch_edge_id(" 12 :::text"), "12");
    assert_eq!(batch_edge_id("no separator"), "no separator");
    assert_eq!(batch_edge_id(""), "");
}

#[test]
fn whole_batch_round_trip() {
    // input file -> partition -> request -> response -> merge -> final file
    let raw = lines(&["0:::meta", "1:::Hello", "2:::World"]);
    let seeded = initial_output(&raw);
    let items = work_items(&raw);
    let batches = make_batches(&items, 2);
    assert_eq!(batches.len(), 1);
    let mut buf = OutputBuffer::new(seeded);
    let body = "{\"choices\":[{\"message\":{\"content\":\"1:::Bonjour\\n2:::Monde\"}}]}";
    let content = match parse_single_response(body) {
        SingleResponse::Content(s) => s,
        other => panic!("expected content, got {:?}", other),
    };
    let mapped = map_results(&batch_lines(&batches[0]), &content);
    buf.merge(&batch_indices(&batches[0]), &mapped);
    assert_eq!(buf.finalize(false).unwrap(), "0:::meta\n1:::Bonjour\n2:::Monde\n");
}
