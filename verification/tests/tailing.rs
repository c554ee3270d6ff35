use claudy::session::{
    parse_session_data, placeholder_session, read_new_lines, load_sessions_index,
    find_index_entry, refresh_index_metadata, IndexEntry, Session,
};
use claudy::strutil::format_tokens;

const NOW: i64 = 1_700_000_000_000;

fn log_two_messages() -> Vec<u8> {
    let mut data = Vec::new();
    data.extend_from_slice(
        br#"{"type":"user","timestamp":"2024-01-01T00:00:00Z","message":{"content":"hello"},"sessionId":"abc","gitBranch":"main","cwd":"/w","slug":"foo"}"#,
    );
    data.push(b'\n');
    data.extend_from_slice(
        br#"{"type":"assistant","timestamp":"2024-01-01T00:00:01Z","message":{"content":"hi","usage":{"input_tokens":5,"output_tokens":3}}}"#,
    );
    data.push(b'\n');
    data
}

#[test]
fn full_parse_counts_messages_and_tokens() {
    let data = log_two_messages();
    let len = data.len() as u64;
    let s = parse_session_data(
        "/root/proj/abc.jsonl".to_string(),
        "proj".to_string(),
        None,
        &data,
        len,
        NOW,
    );
    assert_eq!(s.id, "abc");
    assert_eq!(s.project_slug, "proj");
    assert_eq!(s.messages.len(), 2);
    assert_eq!(s.total_tokens_in, 5);
    assert_eq!(s.total_tokens_out, 3);
    assert_eq!(s.file_offset, len);
    assert_eq!(s.last_activity, 1_704_067_201_000);
    assert_eq!(s.slug.as_deref(), Some("foo"));
    assert_eq!(s.git_branch.as_deref(), Some("main"));
    assert_eq!(s.cwd.as_deref(), Some("/w"));
}

#[test]
fn dropped_lines_are_not_counted() {
    let mut data = log_two_messages();
    data.extend_from_slice(br#"{"type":"file-history-snapshot"}"#);
    data.push(b'\n');
    data.extend_from_slice(b"not json\n");
    data.extend_from_slice(b"\n");
    let len = data.len() as u64;
    let s = parse_session_data(
        "/root/proj/abc.jsonl".to_string(),
        "proj".to_string(),
        None,
        &data,
        len,
        NOW,
    );
    assert_eq!(s.messages.len(), 2);
    assert_eq!(s.total_tokens_in, 5);
}

#[test]
fn progress_lines_count_toward_the_total() {
    let data = b"{\"type\":\"progress\"}\n".to_vec();
    let len = data.len() as u64;
    let s = parse_session_data(
        "/p/x.jsonl".to_string(),
        "p".to_string(),
        None,
        &data,
        len,
        NOW,
    );
    assert_eq!(s.messages.len(), 1);
    assert_eq!(s.messages[0].content, "[progress]");
}

#[test]
fn tail_without_growth_is_a_no_op_twice() {
    let data = log_two_messages();
    let len = data.len() as u64;
    let mut s = parse_session_data(
        "/p/abc.jsonl".to_string(),
        "p".to_string(),
        None,
        &data,
        len,
        NOW,
    );
    let r1 = read_new_lines(&mut s, len, &[], NOW);
    assert!(r1.is_empty());
    assert_eq!(s.file_offset, len);
    assert_eq!(s.messages.len(), 2);
    let r2 = read_new_lines(&mut s, len, &[], NOW);
    assert!(r2.is_empty());
    assert_eq!(s.file_offset, len);
    // a shrinking file yields nothing and the cursor stays
    let r3 = read_new_lines(&mut s, len - 1, &[], NOW);
    assert!(r3.is_empty());
    assert_eq!(s.file_offset, len);
}

#[test]
fn tail_returns_the_retained_subset_and_advances_the_cursor() {
    let data = log_two_messages();
    let len = data.len() as u64;
    let mut s = parse_session_data(
        "/p/abc.jsonl".to_string(),
        "p".to_string(),
        None,
        &data,
        len,
        NOW,
    );
    let mut appended = Vec::new();
    appended.extend_from_slice(br#"{"type":"user","timestamp":"2024-01-01T00:00:05Z","message":{"content":"more"}}"#);
    appended.push(b'\n');
    appended.extend_from_slice(br#"{"type":"queue-operation"}"#);
    appended.push(b'\n');
    appended.extend_from_slice(
        br#"{"type":"assistant","message":{"content":"ok","usage":{"input_tokens":1,"output_tokens":1}}}"#,
    );
    appended.push(b'\n');
    let new_len = len + appended.len() as u64;
    let new_msgs = read_new_lines(&mut s, new_len, &appended, NOW);
    assert_eq!(new_msgs.len(), 2);
    assert_eq!(new_msgs[0].content, "more");
    assert_eq!(new_msgs[1].content, "ok");
    assert_eq!(s.messages.len(), 4);
    assert_eq!(s.file_offset, new_len);
    assert_eq!(s.total_tokens_in, 6);
    assert_eq!(s.total_tokens_out, 4);
    assert_eq!(s.last_activity, NOW);
}

#[test]
fn crlf_lines_parse_like_lf_lines() {
    let data = b"{\"type\":\"progress\"}\r\n{\"type\":\"progress\"}".to_vec();
    let len = data.len() as u64;
    let s = parse_session_data(
        "/p/x.jsonl".to_string(),
        "p".to_string(),
        None,
        &data,
        len,
        NOW,
    );
    assert_eq!(s.messages.len(), 2);
}

#[test]
fn placeholder_session_takes_metadata_from_the_index() {
    let e = IndexEntry {
        session_id: "abc".to_string(),
        custom_title: Some("My work".to_string()),
        summary: Some("sum".to_string()),
        git_branch: Some("dev".to_string()),
        project_path: Some("/w".to_string()),
    };
    let s = placeholder_session("/p/abc.jsonl".to_string(), "p".to_string(), Some(&e), NOW);
    assert_eq!(s.id, "abc");
    assert_eq!(s.custom_title.as_deref(), Some("My work"));
    assert_eq!(s.summary.as_deref(), Some("sum"));
    assert_eq!(s.git_branch.as_deref(), Some("dev"));
    assert_eq!(s.cwd.as_deref(), Some("/w"));
    assert!(s.messages.is_empty());
    assert_eq!(s.file_offset, 0);
    assert_eq!(s.last_activity, NOW);
}

#[test]
fn stream_metadata_wins_over_index_defaults() {
    let e = IndexEntry {
        session_id: "abc".to_string(),
        custom_title: None,
        summary: None,
        git_branch: Some("from-index".to_string()),
        project_path: None,
    };
    let data = log_two_messages();
    let len = data.len() as u64;
    let s = parse_session_data(
        "/p/abc.jsonl".to_string(),
        "p".to_string(),
        Some(&e),
        &data,
        len,
        NOW,
    );
    // the index seeded the branch before any line was read, so it stays
    assert_eq!(s.git_branch.as_deref(), Some("from-index"));
}

#[test]
fn index_document_loads_and_later_entries_win() {
    let doc = br#"{"entries":[
        {"sessionId":"a","customTitle":"first"},
        {"sessionId":"b","summary":"other"},
        {"sessionId":"a","customTitle":"second"}
    ]}"#;
    let entries = load_sessions_index(doc);
    assert_eq!(entries.len(), 3);
    let e = find_index_entry(&entries, "a").unwrap();
    assert_eq!(e.custom_title.as_deref(), Some("second"));
    assert!(find_index_entry(&entries, "zzz").is_none());
}

#[test]
fn malformed_index_documents_yield_no_entries() {
    assert!(load_sessions_index(b"{broken").is_empty());
    assert!(load_sessions_index(br#"{"other":1}"#).is_empty());
    assert!(load_sessions_index(br#"{"entries":[{"customTitle":"no id"}]}"#).is_empty());
}

#[test]
fn refresh_overwrites_but_never_clears() {
    let mut sessions = vec![Session {
        id: "a".to_string(),
        project_slug: "p".to_string(),
        slug: None,
        custom_title: Some("old title".to_string()),
        summary: Some("old summary".to_string()),
        git_branch: Some("main".to_string()),
        cwd: None,
        messages: Vec::new(),
        last_activity: NOW,
        file_offset: 0,
        file_path: "/p/a.jsonl".to_string(),
        total_tokens_in: 0,
        total_tokens_out: 0,
        mtime_ms: None,
    }];
    let entries = vec![IndexEntry {
        session_id: "a".to_string(),
        custom_title: Some("new title".to_string()),
        summary: None,
        git_branch: Some("ignored".to_string()),
        project_path: None,
    }];
    refresh_index_metadata(&mut sessions, &entries);
    assert_eq!(sessions[0].custom_title.as_deref(), Some("new title"));
    assert_eq!(sessions[0].summary.as_deref(), Some("old summary"));
    assert_eq!(sessions[0].git_branch.as_deref(), Some("main"));
}

#[test]
fn active_window_is_five_minutes() {
    let mut s = placeholder_session("/p/a.jsonl".to_string(), "p".to_string(), None, NOW);
    s.mtime_ms = Some(NOW - 10_000);
    assert!(s.is_active(NOW));
    s.mtime_ms = Some(NOW - 600_000);
    assert!(!s.is_active(NOW));
    s.mtime_ms = None;
    assert!(!s.is_active(NOW));
    // a file stamped in the future counts as active
    s.mtime_ms = Some(NOW + 5_000);
    assert!(s.is_active(NOW));
}

#[test]
fn display_name_priority_and_branch() {
    let mut s = placeholder_session(
        "/p/0123456789ab.jsonl".to_string(),
        "p".to_string(),
        None,
        NOW,
    );
    assert_eq!(s.short_id(), "01234567");
    assert_eq!(s.display_name(), "01234567");
    s.summary = Some("a summary".to_string());
    assert_eq!(s.display_name(), "a summary");
    s.slug = Some("slugname".to_string());
    assert_eq!(s.display_name(), "slugname");
    s.custom_title = Some("The Title".to_string());
    assert_eq!(s.display_name(), "The Title");
    s.git_branch = Some("dev".to_string());
    assert_eq!(s.display_name(), "The Title (dev)");
}

#[test]
fn token_counts_format_for_display() {
    assert_eq!(format_tokens(0), "0");
    assert_eq!(format_tokens(999), "999");
    assert_eq!(format_tokens(1_000), "1.0K");
    assert_eq!(format_tokens(1_550), "1.6K");
    assert_eq!(format_tokens(999_444), "999.4K");
    assert_eq!(format_tokens(1_000_000), "1.0M");
    assert_eq!(format_tokens(2_540_000), "2.5M");
    assert_eq!(format_tokens(2_550_000), "2.6M");
}

#[test]
fn token_totals_saturate_instead_of_overflowing() {
    let mut data = Vec::new();
    data.extend_from_slice(
        br#"{"type":"assistant","message":{"content":"big","usage":{"input_tokens":18446744073709551615,"cache_read_input_tokens":5,"output_tokens":1}}}"#,
    );
    data.push(b'\n');
    let len = data.len() as u64;
    let s = parse_session_data(
        "/p/x.jsonl".to_string(),
        "p".to_string(),
        None,
        &data,
        len,
        NOW,
    );
    assert_eq!(s.messages.len(), 1);
    assert_eq!(s.messages[0].tokens_in, Some(u64::MAX));
    assert_eq!(s.total_tokens_in, u64::MAX);
    assert_eq!(s.total_tokens_out, 1);
}

#[test]
fn first_metadata_value_wins() {
    let mut data = Vec::new();
    data.extend_from_slice(br#"{"type":"user","sessionId":"x","slug":"first"}"#);
    data.push(b'\n');
    data.extend_from_slice(br#"{"type":"user","sessionId":"x","slug":"second","gitBranch":"late"}"#);
    data.push(b'\n');
    let len = data.len() as u64;
    let s = parse_session_data(
        "/p/x.jsonl".to_string(),
        "p".to_string(),
        None,
        &data,
        len,
        NOW,
    );
    assert_eq!(s.slug.as_deref(), Some("first"));
    // the branch was still unset when the second line arrived, so it fills in
    assert_eq!(s.git_branch.as_deref(), Some("late"));
}
