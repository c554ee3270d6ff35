use claudy::message::{parse_line, extract_meta, MessageType};

const NOW: i64 = 1_700_000_000_000;

#[test]
fn user_line_parses_to_user_message() {
    let line = r#"{"type":"user","timestamp":"2024-01-01T00:00:00Z","message":{"content":"hello"}}"#;
    let msg = parse_line(line.as_bytes(), NOW).unwrap();
    assert_eq!(msg.msg_type, MessageType::User);
    assert_eq!(msg.content, "hello");
    assert_eq!(msg.timestamp_ms, 1_704_067_200_000);
    assert_eq!(msg.tokens_in, None);
    assert_eq!(msg.tokens_out, None);
}

#[test]
fn assistant_line_carries_tokens() {
    let line = r#"{"type":"assistant","timestamp":"2024-01-01T00:00:01Z","message":{"content":"hi","usage":{"input_tokens":5,"output_tokens":3}}}"#;
    let msg = parse_line(line.as_bytes(), NOW).unwrap();
    assert_eq!(msg.msg_type, MessageType::Assistant);
    assert_eq!(msg.content, "hi");
    assert_eq!(msg.tokens_in, Some(5));
    assert_eq!(msg.tokens_out, Some(3));
}

#[test]
fn cache_token_fields_join_the_input_total() {
    let line = r#"{"type":"assistant","message":{"content":"x","usage":{"input_tokens":5,"output_tokens":2,"cache_read_input_tokens":10,"cache_creation_input_tokens":20}}}"#;
    let msg = parse_line(line.as_bytes(), NOW).unwrap();
    assert_eq!(msg.tokens_in, Some(35));
    assert_eq!(msg.tokens_out, Some(2));
}

#[test]
fn progress_line_yields_fixed_content() {
    let msg = parse_line(br#"{"type":"progress"}"#, NOW).unwrap();
    assert_eq!(msg.msg_type, MessageType::Progress);
    assert_eq!(msg.content, "[progress]");
}

#[test]
fn unknown_type_yields_other_with_bracketed_type() {
    let msg = parse_line(br#"{"type":"system"}"#, NOW).unwrap();
    assert_eq!(msg.msg_type, MessageType::Other);
    assert_eq!(msg.content, "[system]");
}

#[test]
fn snapshot_and_queue_lines_are_dropped() {
    assert!(parse_line(br#"{"type":"file-history-snapshot"}"#, NOW).is_none());
    assert!(parse_line(br#"{"type":"queue-operation"}"#, NOW).is_none());
}

#[test]
fn empty_content_is_dropped() {
    assert!(parse_line(br#"{"type":"user","message":{"content":"   "}}"#, NOW).is_none());
    assert!(parse_line(br#"{"type":"user"}"#, NOW).is_none());
}

#[test]
fn malformed_json_is_dropped() {
    assert!(parse_line(b"not json at all", NOW).is_none());
    assert!(parse_line(b"", NOW).is_none());
}

#[test]
fn tool_use_block_turns_assistant_into_tool_use() {
    let line = r#"{"type":"assistant","message":{"content":[{"type":"text","text":"running"},{"type":"tool_use","name":"bash"}]}}"#;
    let msg = parse_line(line.as_bytes(), NOW).unwrap();
    assert_eq!(msg.msg_type, MessageType::ToolUse);
    assert_eq!(msg.content, "running\n[tool: bash]");
}

#[test]
fn block_array_parts_join_with_newlines() {
    let line = r#"{"type":"user","message":{"content":[{"type":"text","text":"  a  "},{"type":"tool_result"},{"type":"text","text":""},{"type":"mystery"}]}}"#;
    let msg = parse_line(line.as_bytes(), NOW).unwrap();
    assert_eq!(msg.content, "a\n[tool result]");
}

#[test]
fn tool_use_without_name_reads_unknown() {
    let line = r#"{"type":"user","message":{"content":[{"type":"tool_use"}]}}"#;
    let msg = parse_line(line.as_bytes(), NOW).unwrap();
    assert_eq!(msg.content, "[tool: unknown]");
}

#[test]
fn tag_wrapped_text_keeps_trailing_part() {
    let line = r#"{"type":"user","message":{"content":"<note>remember this"}}"#;
    let msg = parse_line(line.as_bytes(), NOW).unwrap();
    assert_eq!(msg.content, "remember this");
}

#[test]
fn command_marker_content_is_dropped_entirely() {
    let line = r#"{"type":"user","message":{"content":"<command-name>ls</command-name>"}}"#;
    assert!(parse_line(line.as_bytes(), NOW).is_none());
}

#[test]
fn tag_wrapped_without_trailing_text_or_marker_stays() {
    let line = r#"{"type":"user","message":{"content":"<thing>"}}"#;
    let msg = parse_line(line.as_bytes(), NOW).unwrap();
    assert_eq!(msg.content, "<thing>");
}

#[test]
fn bad_timestamp_falls_back_to_now() {
    let line = r#"{"type":"user","timestamp":"yesterday","message":{"content":"x"}}"#;
    let msg = parse_line(line.as_bytes(), NOW).unwrap();
    assert_eq!(msg.timestamp_ms, NOW);
}

#[test]
fn summary_line_yields_summary_meta() {
    let meta = extract_meta(br#"{"type":"summary","summary":"fixing the build"}"#).unwrap();
    assert_eq!(meta.summary.as_deref(), Some("fixing the build"));
    assert!(meta.git_branch.is_none());
    assert!(meta.slug.is_none());
}

#[test]
fn session_id_line_yields_branch_cwd_slug() {
    let meta = extract_meta(
        br#"{"type":"user","sessionId":"abc","gitBranch":"main","cwd":"/tmp","slug":"foo"}"#,
    )
    .unwrap();
    assert_eq!(meta.git_branch.as_deref(), Some("main"));
    assert_eq!(meta.cwd.as_deref(), Some("/tmp"));
    assert_eq!(meta.slug.as_deref(), Some("foo"));
    assert!(meta.summary.is_none());
}

#[test]
fn meta_needs_session_id_or_summary() {
    assert!(extract_meta(br#"{"type":"user","gitBranch":"main"}"#).is_none());
    assert!(extract_meta(b"{garbage").is_none());
}
