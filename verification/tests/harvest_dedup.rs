use ccometixline::harvest::{
    extract_session_id, parse_line_to_usage, DataLoader, DedupSet, RawRecord,
};
use ccometixline::usage::{NormalizedUsage, RawUsage};

// 2024-01-15T10:00:00Z
const TEN_AM: i64 = 1705312800;

fn assistant_line(msg_id: &str, req_id: &str, input: u32, output: u32) -> String {
    format!(
        "{{\"type\":\"assistant\",\"requestId\":\"{}\",\"timestamp\":\"2024-01-15T10:00:00Z\",\"message\":{{\"id\":\"{}\",\"model\":\"sonnet-3-5\",\"usage\":{{\"input_tokens\":{},\"output_tokens\":{}}}}}}}",
        req_id, msg_id, input, output
    )
}

#[test]
fn test_extract_session_id() {
    let path = "/home/user/.logs/projects/test/c040b0ba-658d-4188-befa-0d2dad1f0ea5.jsonl";
    assert_eq!(
        extract_session_id(path),
        "c040b0ba-658d-4188-befa-0d2dad1f0ea5"
    );
}

#[test]
fn test_extract_session_id_without_extension() {
    assert_eq!(extract_session_id("dir/name"), "name");
    assert_eq!(extract_session_id("dir/"), "unknown");
}

#[test]
fn test_normalized_to_usage_entry() {
    let normalized = NormalizedUsage {
        input_tokens: 100,
        output_tokens: 50,
        total_tokens: 150,
        cache_creation_input_tokens: 10,
        cache_read_input_tokens: 5,
        calculation_source: "test".to_string(),
        raw_data_available: vec![],
    };

    let entry = ccometixline::harvest::extract_usage_entry(
        &normalized,
        "test-session",
        None,
        Some("sonnet-3-5"),
        TEN_AM,
    )
    .unwrap();
    assert_eq!(entry.input_tokens, 100);
    assert_eq!(entry.output_tokens, 50);
    assert_eq!(entry.cache_creation_tokens, 10);
    assert_eq!(entry.cache_read_tokens, 5);
    assert_eq!(entry.session_id, "test-session");
    assert_eq!(entry.model, "sonnet-3-5");
    assert!(entry.cost.is_none());
}

#[test]
fn test_duplicate_pairs_kept_once() {
    // The same (message id, request id) pair on two lines yields exactly
    // one entry, whichever order the lines arrive in.
    let mut seen = DedupSet::new();
    let line = assistant_line("m1", "r1", 100, 50);
    let first = parse_line_to_usage(&line, "s", &mut seen, TEN_AM);
    let second = parse_line_to_usage(&line, "s", &mut seen, TEN_AM);
    assert!(first.is_some());
    assert!(second.is_none());

    let e = first.unwrap();
    assert_eq!(e.input_tokens, 100);
    assert_eq!(e.output_tokens, 50);
    assert_eq!(e.model, "sonnet-3-5");
    // The timestamp string on the line parses to 10:00 UTC, not to the
    // fallback clock value.
    assert_eq!(e.timestamp, TEN_AM);
}

#[test]
fn test_distinct_pairs_all_kept() {
    let mut seen = DedupSet::new();
    let a = parse_line_to_usage(&assistant_line("m1", "r1", 1, 1), "s", &mut seen, TEN_AM);
    let b = parse_line_to_usage(&assistant_line("m1", "r2", 2, 2), "s", &mut seen, TEN_AM);
    let c = parse_line_to_usage(&assistant_line("m2", "r1", 3, 3), "s", &mut seen, TEN_AM);
    assert!(a.is_some() && b.is_some() && c.is_some());
}

#[test]
fn test_records_without_ids_never_deduplicated() {
    // Two identical lines lacking both ids both contribute entries.
    let line = "{\"type\":\"assistant\",\"message\":{\"usage\":{\"input_tokens\":7}}}";
    let mut seen = DedupSet::new();
    let a = parse_line_to_usage(line, "s", &mut seen, TEN_AM);
    let b = parse_line_to_usage(line, "s", &mut seen, TEN_AM);
    assert!(a.is_some());
    assert!(b.is_some());
}

#[test]
fn test_non_assistant_and_malformed_lines_skipped() {
    let mut seen = DedupSet::new();
    assert!(parse_line_to_usage("not json at all", "s", &mut seen, TEN_AM).is_none());
    assert!(parse_line_to_usage(
        "{\"type\":\"user\",\"message\":{\"usage\":{\"input_tokens\":7}}}",
        "s",
        &mut seen,
        TEN_AM
    )
    .is_none());
    assert!(parse_line_to_usage("{\"type\":\"assistant\"}", "s", &mut seen, TEN_AM).is_none());
}

#[test]
fn test_process_file_deduplicates_across_lines() {
    let mut loader = DataLoader::new();
    let mut content = String::new();
    content.push_str(&assistant_line("m1", "r1", 100, 50));
    content.push_str("\r\n");
    content.push_str(&assistant_line("m1", "r1", 100, 50));
    content.push_str("\n\n");
    content.push_str(&assistant_line("m2", "r2", 1, 1));
    content.push_str("\n");
    loader.process_file("session-a", content.as_bytes(), TEN_AM);
    let entries = loader.sorted_entries();
    assert_eq!(entries.len(), 2);
    assert_eq!(entries[0].session_id, "session-a");
}

#[test]
fn test_dedup_is_global_across_files() {
    // The at-most-once guarantee holds across the whole batch: a pair
    // seen in one file is dropped in another.
    let mut loader = DataLoader::new();
    let line = assistant_line("m1", "r1", 100, 50);
    loader.process_file("a", line.as_bytes(), TEN_AM);
    loader.process_file("b", line.as_bytes(), TEN_AM);
    assert_eq!(loader.sorted_entries().len(), 1);
}

#[test]
fn test_absorb_records_sorts_output() {
    let rec = |ts: &str, m: &str| RawRecord {
        rec_type: Some("assistant".to_string()),
        message_id: Some(m.to_string()),
        request_id: Some("r".to_string()),
        timestamp: Some(ts.to_string()),
        model: Some("sonnet-3-5".to_string()),
        usage: Some(RawUsage {
            input_tokens: Some(1),
            output_tokens: Some(1),
            total_tokens: None,
            cache_creation_input_tokens: None,
            cache_read_input_tokens: None,
            prompt_tokens_details: None,
        }),
    };
    let mut loader = DataLoader::new();
    let records = vec![
        rec("2024-01-15T12:00:00Z", "m-late"),
        rec("2024-01-15T10:00:00Z", "m-early"),
    ];
    loader.absorb_records(&records, "s", TEN_AM);
    let entries = loader.sorted_entries();
    assert_eq!(entries.len(), 2);
    assert!(entries[0].timestamp <= entries[1].timestamp);
    assert_eq!(entries[0].timestamp, TEN_AM);
}

#[test]
fn test_nested_cached_tokens_fallback() {
    // The cache-read count falls back to the nested cached-token detail.
    let line = "{\"type\":\"assistant\",\"message\":{\"usage\":{\"prompt_tokens\":10,\"completion_tokens\":4,\"prompt_tokens_details\":{\"cached_tokens\":6}}}}";
    let mut seen = DedupSet::new();
    let e = parse_line_to_usage(line, "s", &mut seen, TEN_AM).unwrap();
    assert_eq!(e.input_tokens, 10);
    assert_eq!(e.output_tokens, 4);
    assert_eq!(e.cache_read_tokens, 6);
}

#[test]
fn test_normalize_prefers_direct_total() {
    let raw = RawUsage {
        input_tokens: Some(10),
        output_tokens: Some(20),
        total_tokens: Some(99),
        cache_creation_input_tokens: None,
        cache_read_input_tokens: None,
        prompt_tokens_details: None,
    };
    let n = raw.normalize();
    assert_eq!(n.total_tokens, 99);
    assert_eq!(n.calculation_source, "total_tokens_direct");
    assert_eq!(n.raw_data_available.len(), 3);
}

#[test]
fn test_normalize_sums_components() {
    let raw = RawUsage {
        input_tokens: Some(10),
        output_tokens: Some(20),
        total_tokens: None,
        cache_creation_input_tokens: Some(5),
        cache_read_input_tokens: Some(3),
        prompt_tokens_details: None,
    };
    let n = raw.normalize();
    assert_eq!(n.total_tokens, 38);
    assert_eq!(n.calculation_source, "total_from_components");
    assert_eq!(n.context_tokens(), 38);
    assert_eq!(n.total_for_cost(), 38);
    assert_eq!(n.display_tokens(), 38);
}

#[test]
fn test_display_tokens_falls_back() {
    let n = NormalizedUsage {
        input_tokens: 0,
        output_tokens: 0,
        total_tokens: 42,
        cache_creation_input_tokens: 0,
        cache_read_input_tokens: 0,
        calculation_source: String::new(),
        raw_data_available: vec![],
    };
    assert_eq!(n.display_tokens(), 42);
}
