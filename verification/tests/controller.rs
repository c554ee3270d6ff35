use claudy::session::{placeholder_session, Session};
use claudy::view::{
    rect_contains, App, AppCommand, EventAction, FocusPanel, KeyInput, WatchEvent,
};

const NOW: i64 = 1_700_000_000_000;

fn session(id: &str, last_activity: i64) -> Session {
    let mut s = placeholder_session(
        format!("/root/projects/p/{}.jsonl", id),
        "p".to_string(),
        None,
        NOW,
    );
    s.last_activity = last_activity;
    s
}

#[test]
fn new_app_sorts_by_activity_and_selects_the_first() {
    let app = App::new(
        vec![session("old", 100), session("new", 300), session("mid", 200)],
        NOW,
    );
    assert_eq!(app.sorted_session_ids, vec!["new", "mid", "old"]);
    assert_eq!(app.selected_session.as_deref(), Some("new"));
    assert_eq!(app.selected_index, Some(0));
    assert_eq!(app.focus, FocusPanel::Sessions);
    assert!(!app.should_quit);
}

#[test]
fn equal_timestamps_order_deterministically() {
    let app1 = App::new(vec![session("b", 100), session("a", 100)], NOW);
    let app2 = App::new(vec![session("a", 100), session("b", 100)], NOW);
    assert_eq!(app1.sorted_session_ids, app2.sorted_session_ids);
    assert_eq!(app1.sorted_session_ids.len(), 2);
}

#[test]
fn shared_slug_collapses_and_title_migrates() {
    let mut with_title = session("younger", 200);
    with_title.slug = Some("foo".to_string());
    with_title.custom_title = Some("The Title".to_string());
    let mut without_title = session("elder", 300);
    without_title.slug = Some("foo".to_string());
    let mut app = App::new(vec![with_title, without_title], NOW);
    app.update_sort(NOW);
    assert_eq!(app.sorted_session_ids, vec!["elder"]);
    let kept = &app.sessions[claudy::view::find_session(&app.sessions, "elder").unwrap()];
    assert_eq!(kept.custom_title.as_deref(), Some("The Title"));
}

#[test]
fn sessions_without_slug_never_deduplicate() {
    let mut app = App::new(vec![session("a", 100), session("b", 200)], NOW);
    app.update_sort(NOW);
    assert_eq!(app.sorted_session_ids.len(), 2);
}

#[test]
fn active_only_filter_keeps_recent_files() {
    let mut fresh = session("fresh", 300);
    fresh.mtime_ms = Some(NOW - 10_000);
    let mut stale = session("stale", 400);
    stale.mtime_ms = Some(NOW - 600_000);
    let mut app = App::new(vec![fresh, stale], NOW);
    app.handle_key_event(KeyInput::Char('a'), NOW);
    assert_eq!(app.sorted_session_ids, vec!["fresh"]);
    app.handle_key_event(KeyInput::Char('a'), NOW);
    assert_eq!(app.sorted_session_ids, vec!["stale", "fresh"]);
}

#[test]
fn filter_round_trip_restores_list_and_selection() {
    let mut a = session("aaa", 100);
    a.custom_title = Some("alpha work".to_string());
    let mut b = session("bbb", 200);
    b.custom_title = Some("beta work".to_string());
    let mut app = App::new(vec![a, b], NOW);
    app.update_sort(NOW);
    // select the second visible entry
    app.handle_key_event(KeyInput::Down, NOW);
    assert_eq!(app.selected_session.as_deref(), Some("aaa"));
    // type a filter that matches nothing
    app.handle_key_event(KeyInput::Char('/'), NOW);
    assert!(app.filter_mode);
    app.handle_key_event(KeyInput::Char('z'), NOW);
    app.handle_key_event(KeyInput::Char('z'), NOW);
    assert!(app.sorted_session_ids.is_empty());
    assert_eq!(app.selected_index, None);
    app.handle_key_event(KeyInput::Enter, NOW);
    assert!(!app.filter_mode);
    assert!(app.sorted_session_ids.is_empty());
    // clearing the filter restores the list and reselects the remembered id
    app.handle_key_event(KeyInput::Char('/'), NOW);
    app.handle_key_event(KeyInput::Esc, NOW);
    assert_eq!(app.sorted_session_ids, vec!["bbb", "aaa"]);
    assert_eq!(app.selected_session.as_deref(), Some("aaa"));
    assert_eq!(app.selected_index, Some(1));
}

#[test]
fn filter_matches_name_id_and_summary() {
    let mut a = session("deadbeef", 100);
    a.custom_title = Some("Alpha Work".to_string());
    let mut b = session("cafe1234", 200);
    b.summary = Some("Fixing Parser".to_string());
    let mut app = App::new(vec![a, b], NOW);
    app.handle_key_event(KeyInput::Char('/'), NOW);
    for c in "alpha".chars() {
        app.handle_key_event(KeyInput::Char(c), NOW);
    }
    assert_eq!(app.sorted_session_ids, vec!["deadbeef"]);
    // backspaces clear the filter character by character
    for _ in 0.."alpha".len() {
        app.handle_key_event(KeyInput::Backspace, NOW);
    }
    assert_eq!(app.sorted_session_ids.len(), 2);
    for c in "parser".chars() {
        app.handle_key_event(KeyInput::Char(c), NOW);
    }
    assert_eq!(app.sorted_session_ids, vec!["cafe1234"]);
    for _ in 0..6 {
        app.handle_key_event(KeyInput::Backspace, NOW);
    }
    for c in "beef".chars() {
        app.handle_key_event(KeyInput::Char(c), NOW);
    }
    assert_eq!(app.sorted_session_ids, vec!["deadbeef"]);
}

#[test]
fn selection_moves_and_caps_at_both_ends() {
    let mut app = App::new(
        vec![session("a", 300), session("b", 200), session("c", 100)],
        NOW,
    );
    app.move_selection(1);
    assert_eq!(app.selected_session.as_deref(), Some("b"));
    app.move_selection(5);
    assert_eq!(app.selected_session.as_deref(), Some("c"));
    app.move_selection(-1);
    assert_eq!(app.selected_session.as_deref(), Some("b"));
    app.move_selection(-10);
    assert_eq!(app.selected_session.as_deref(), Some("a"));
    assert!(app.chat_scroll_locked_to_bottom);
}

#[test]
fn keys_quit_toggle_focus_and_scroll() {
    let mut app = App::new(vec![session("a", 100)], NOW);
    assert_eq!(app.handle_key_event(KeyInput::Tab, NOW), AppCommand::DrainInput);
    assert_eq!(app.focus, FocusPanel::Chat);
    app.handle_key_event(KeyInput::Char('j'), NOW);
    assert_eq!(app.chat_scroll, 3);
    assert!(!app.chat_scroll_locked_to_bottom);
    app.handle_key_event(KeyInput::PageDown, NOW);
    assert_eq!(app.chat_scroll, 23);
    app.handle_key_event(KeyInput::Char('k'), NOW);
    assert_eq!(app.chat_scroll, 20);
    app.handle_key_event(KeyInput::Char('G'), NOW);
    assert!(app.chat_scroll_locked_to_bottom);
    app.handle_key_event(KeyInput::Char('g'), NOW);
    assert_eq!(app.chat_scroll, 0);
    assert!(!app.chat_scroll_locked_to_bottom);
    assert_eq!(app.handle_key_event(KeyInput::Char('r'), NOW), AppCommand::Refresh);
    app.handle_key_event(KeyInput::Char('q'), NOW);
    assert!(app.should_quit);
}

#[test]
fn enter_selects_and_focuses_the_chat() {
    let mut app = App::new(vec![session("a", 200), session("b", 100)], NOW);
    app.move_selection(1);
    app.handle_key_event(KeyInput::Enter, NOW);
    assert_eq!(app.selected_session.as_deref(), Some("b"));
    assert_eq!(app.focus, FocusPanel::Chat);
}

#[test]
fn events_plan_to_refresh_tail_discover_or_ignore() {
    let app = App::new(vec![session("abc", 100)], NOW);
    let plan = app.plan_event(&WatchEvent::FileModified(
        "/root/projects/p/sessions-index.json".to_string(),
    ));
    assert_eq!(plan, EventAction::RefreshMetadata);
    let plan = app.plan_event(&WatchEvent::FileModified(
        "/root/projects/p/abc.jsonl".to_string(),
    ));
    assert_eq!(plan, EventAction::TailSession(0));
    let plan = app.plan_event(&WatchEvent::FileModified(
        "/root/projects/p/unknown.jsonl".to_string(),
    ));
    assert_eq!(
        plan,
        EventAction::Discover("/root/projects/p/unknown.jsonl".to_string())
    );
    let plan = app.plan_event(&WatchEvent::FileCreated(
        "/root/projects/p/fresh.jsonl".to_string(),
    ));
    assert_eq!(
        plan,
        EventAction::Discover("/root/projects/p/fresh.jsonl".to_string())
    );
    let plan = app.plan_event(&WatchEvent::FileCreated(
        "/root/projects/p/notes.txt".to_string(),
    ));
    assert_eq!(plan, EventAction::Ignore);
}

#[test]
fn tailing_through_the_controller_appends_and_resorts() {
    let mut app = App::new(vec![session("abc", 100), session("zzz", 200)], NOW);
    assert_eq!(app.sorted_session_ids, vec!["zzz", "abc"]);
    let i = claudy::view::find_session(&app.sessions, "abc").unwrap();
    let line =
        br#"{"type":"user","timestamp":"2024-01-01T00:00:00Z","message":{"content":"ping"}}
"#;
    app.apply_tail(i, line.len() as u64, line, NOW);
    let i = claudy::view::find_session(&app.sessions, "abc").unwrap();
    assert_eq!(app.sessions[i].messages.len(), 1);
    // "abc" now has the latest activity and sorts first
    assert_eq!(app.sorted_session_ids[0], "abc");
    // the previous selection survives the reorder at its new position
    assert_eq!(app.selected_session.as_deref(), Some("zzz"));
    assert_eq!(app.selected_index, Some(1));
}

#[test]
fn discovered_sessions_replace_by_id() {
    let mut app = App::new(vec![session("abc", 100)], NOW);
    let mut replacement = session("abc", 500);
    replacement.custom_title = Some("renewed".to_string());
    app.insert_discovered(replacement, NOW);
    assert_eq!(app.sessions.len(), 1);
    assert_eq!(app.sessions[0].custom_title.as_deref(), Some("renewed"));
    app.insert_discovered(session("other", 50), NOW);
    assert_eq!(app.sessions.len(), 2);
}

#[test]
fn maintenance_runs_on_the_refresh_interval() {
    let mut app = App::new(Vec::new(), NOW);
    assert!(!app.maintenance_due(NOW + 9_999));
    assert!(app.maintenance_due(NOW + 10_000));
    app.mark_refreshed(NOW + 10_000);
    assert!(!app.maintenance_due(NOW + 15_000));
}

#[test]
fn rect_hit_testing() {
    assert!(rect_contains(10, 5, 20, 4, 10, 5));
    assert!(rect_contains(10, 5, 20, 4, 29, 8));
    assert!(!rect_contains(10, 5, 20, 4, 30, 5));
    assert!(!rect_contains(10, 5, 20, 4, 10, 9));
    assert!(!rect_contains(10, 5, 20, 4, 9, 5));
}
