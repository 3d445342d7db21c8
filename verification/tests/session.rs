use kuku::error::Error;
use kuku::session::{delete_lock_check, existing_lock_decision, lock_file_content, lock_holder_pid,
    list_sessions, session_status, startup_prune_options, MainConversation, PruneOptions,
    SessionStatus, SessionSummary, TurnTerminal,
};

fn summary(id: &str, mtime: &str) -> SessionSummary {
    SessionSummary {
        session_id: id.to_string(),
        workspace: "/work".to_string(),
        title: format!("title {id}"),
        created_at: "2026-01-01T00:00:00Z".to_string(),
        turn_count: 1,
        status: SessionStatus::Done,
        mtime: mtime.to_string(),
        size: 10,
    }
}

#[test]
fn startup_prune_options_exclude_active_runtime_path() {
    let active_path = "/tmp/kuku/logs/runtime/2026-06-06.jsonl";

    let options = startup_prune_options(active_path);

    assert!(options.excludes_active_path(active_path));
    assert!(!options.excludes_active_path("/tmp/kuku/logs/runtime/2026-06-05.jsonl"));
}

#[test]
fn default_prune_options_exclude_nothing() {
    assert!(!PruneOptions::default().excludes_active_path("/tmp/a"));
}

#[test]
fn sessions_are_listed_most_recent_first_and_stably() {
    let listed = list_sessions(vec![
        summary("a", "2026-01-02"),
        summary("b", "2026-01-03"),
        summary("c", "2026-01-02"),
        summary("d", "2026-01-01"),
    ]);
    let ids: Vec<&str> = listed.iter().map(|s| s.session_id.as_str()).collect();
    assert_eq!(ids, vec!["b", "a", "c", "d"]);
    assert!(list_sessions(vec![]).is_empty());
}

#[test]
fn session_status_follows_the_lock_and_the_main_conversation() {
    let running = MainConversation { has_active_turn: true, last_terminal: None };
    let completed = MainConversation { has_active_turn: false, last_terminal: Some(TurnTerminal::Completed) };
    let cancelled = MainConversation { has_active_turn: false, last_terminal: Some(TurnTerminal::Cancelled) };
    assert_eq!(session_status(true, Some(running), false), SessionStatus::Active);
    assert_eq!(session_status(false, Some(running), true), SessionStatus::Interrupted);
    assert_eq!(session_status(false, Some(completed), false), SessionStatus::Done);
    assert_eq!(session_status(false, Some(cancelled), true), SessionStatus::Done);
    assert_eq!(session_status(false, Some(cancelled), false), SessionStatus::Interrupted);
    assert_eq!(session_status(false, None, true), SessionStatus::Done);
    assert_eq!(SessionStatus::Interrupted.as_str(), "interrupted");
}

#[test]
fn lock_file_names_writer_on_first_line() {
    let content = lock_file_content(4242, "2024-01-02T03:04:05Z");
    assert_eq!(content, "4242\n2024-01-02T03:04:05Z\n");
    assert_eq!(lock_holder_pid(&content), Some(4242));
}

#[test]
fn lock_holder_pid_reads_like_i32_parse() {
    assert_eq!(lock_holder_pid(""), None);
    assert_eq!(lock_holder_pid("\n123\n"), None);
    assert_eq!(lock_holder_pid("17"), Some(17));
    assert_eq!(lock_holder_pid("17\r\nrest"), Some(17));
    assert_eq!(lock_holder_pid("+8\n"), Some(8));
    assert_eq!(lock_holder_pid("-2147483648\n"), Some(i32::MIN));
    assert_eq!(lock_holder_pid("2147483647\n"), Some(i32::MAX));
    assert_eq!(lock_holder_pid("2147483648\n"), None);
    assert_eq!(lock_holder_pid("99999999999999999999\n"), None);
    assert_eq!(lock_holder_pid("-\n"), None);
    assert_eq!(lock_holder_pid(" 12\n"), None);
    assert_eq!(lock_holder_pid("12a\n"), None);
}

#[test]
fn existing_lock_decisions() {
    assert_eq!(
        existing_lock_decision("s".to_string(), None, false),
        Err(Error::SessionLocked { session: "s".to_string(), holder_pid: 0 })
    );
    assert_eq!(
        existing_lock_decision("s".to_string(), Some(12), true),
        Err(Error::SessionLocked { session: "s".to_string(), holder_pid: 12 })
    );
    assert_eq!(existing_lock_decision("s".to_string(), Some(12), false), Ok(()));
}

#[test]
fn delete_lock_checks() {
    assert_eq!(delete_lock_check("s".to_string(), None, true), Ok(()));
    assert_eq!(delete_lock_check("s".to_string(), Some(3), false), Ok(()));
    assert_eq!(
        delete_lock_check("s".to_string(), Some(3), true),
        Err(Error::SessionLocked { session: "s".to_string(), holder_pid: 3 })
    );
}
