use kuku::events::{EventPayload, StoredEvent};
use kuku::json::JsonValue;
use kuku::skill::session::{find_skill_snapshot, loaded_skill_names};

fn event(id: u64, payload: EventPayload) -> StoredEvent {
    StoredEvent { id, payload }
}

fn context(id: u64, conversation: &str, turn: u64, bootstrap: &[&str]) -> StoredEvent {
    event(
        id,
        EventPayload::ContextSkills {
            conversation: conversation.to_string(),
            turn,
            registry: JsonValue::Null,
            bootstrap_loaded: bootstrap.iter().map(|s| s.to_string()).collect(),
        },
    )
}

fn use_skill(id: u64, conversation: &str, turn: u64, tool_call_id: &str, index: u64, skill: &str) -> StoredEvent {
    event(
        id,
        EventPayload::ToolCall {
            turn,
            conversation: Some(conversation.to_string()),
            tool_call_id: tool_call_id.to_string(),
            request_id: format!("req_{turn}"),
            index,
            tool: "use_skill".to_string(),
            args: JsonValue::Object(vec![(
                "skill_name".to_string(),
                JsonValue::String(skill.to_string()),
            )]),
        },
    )
}

fn result(id: u64, conversation: &str, turn: u64, tool_call_id: &str, status: &str, truncated: bool) -> StoredEvent {
    event(
        id,
        EventPayload::ToolResult {
            turn,
            conversation: Some(conversation.to_string()),
            tool_call_id: tool_call_id.to_string(),
            status: status.to_string(),
            summary: "summary".to_string(),
            model_content: "content".to_string(),
            truncated,
        },
    )
}

#[test]
fn loaded_skill_names_only_include_successful_use_skill_results() {
    let events = vec![
        context(1, "main", 3, &["bootstrap-beta", "alpha"]),
        use_skill(2, "main", 3, "tool_ok", 0, "alpha"),
        result(3, "main", 3, "tool_ok", "ok", false),
        use_skill(4, "main", 3, "tool_blocked", 1, "beta"),
        result(5, "main", 3, "tool_blocked", "error", false),
    ];

    assert_eq!(
        loaded_skill_names(&events, "main"),
        vec!["alpha".to_string(), "bootstrap-beta".to_string()]
    );
}

#[test]
fn loaded_skill_names_ignores_blocked_use_skill_results() {
    let events = vec![
        context(1, "main", 4, &[]),
        use_skill(2, "main", 4, "tool_alpha", 0, "alpha"),
        result(3, "main", 4, "tool_alpha", "ok", false),
        use_skill(4, "main", 4, "tool_beta", 1, "beta"),
        result(5, "main", 4, "tool_beta", "blocked", false),
    ];

    assert_eq!(loaded_skill_names(&events, "main"), vec!["alpha".to_string()]);
}

#[test]
fn loaded_skill_names_ignores_truncated_use_skill_results() {
    let events = vec![
        context(1, "main", 4, &[]),
        use_skill(2, "main", 4, "tool_alpha", 0, "alpha"),
        result(3, "main", 4, "tool_alpha", "ok", true),
    ];

    assert!(loaded_skill_names(&events, "main").is_empty());
}

#[test]
fn loaded_skill_names_ignores_error_and_cancelled_use_skill_results() {
    let events = vec![
        context(1, "main", 5, &[]),
        use_skill(2, "main", 5, "tool_alpha", 0, "alpha"),
        result(3, "main", 5, "tool_alpha", "ok", false),
        use_skill(4, "main", 5, "tool_beta", 1, "beta"),
        result(5, "main", 5, "tool_beta", "error", false),
        use_skill(6, "main", 5, "tool_gamma", 2, "gamma"),
    ];

    assert_eq!(loaded_skill_names(&events, "main"), vec!["alpha".to_string()]);
}

#[test]
fn loaded_skill_names_ignore_trailing_rollback_admin_events() {
    let events = vec![
        context(1, "main", 4, &[]),
        use_skill(2, "main", 4, "tool_alpha", 0, "alpha"),
        result(3, "main", 4, "tool_alpha", "ok", false),
        event(
            4,
            EventPayload::ConversationRollback {
                conversation: "main".to_string(),
                to_turn: 2,
                to_event_id: 3,
            },
        ),
        event(
            5,
            EventPayload::ConversationRollbackUndone {
                conversation: "main".to_string(),
                rollback_event_id: 4,
            },
        ),
    ];

    assert_eq!(loaded_skill_names(&events, "main"), vec!["alpha".to_string()]);
}

#[test]
fn loaded_skill_names_drop_rolled_back_loads() {
    let events = vec![
        context(1, "main", 4, &["boot"]),
        use_skill(2, "main", 4, "tool_alpha", 0, "alpha"),
        result(3, "main", 4, "tool_alpha", "ok", false),
        event(
            4,
            EventPayload::ConversationRollback {
                conversation: "main".to_string(),
                to_turn: 4,
                to_event_id: 3,
            },
        ),
    ];

    assert_eq!(loaded_skill_names(&events, "main"), vec!["boot".to_string()]);
}

#[test]
fn ignores_rolled_back_snapshots_when_restoring() {
    let events = vec![
        context(1, "main", 1, &["keep"]),
        event(2, EventPayload::TurnStarted { conversation: "main".to_string(), turn: 2 }),
        context(3, "main", 2, &["rollback"]),
        event(
            4,
            EventPayload::ConversationRollback {
                conversation: "main".to_string(),
                to_turn: 2,
                to_event_id: 3,
            },
        ),
    ];

    assert_eq!(find_skill_snapshot(&events, events.len(), "main", 2, false), None);
    assert_eq!(find_skill_snapshot(&events, events.len(), "main", 3, true), Some(0));
}

#[test]
fn loaded_skill_names_remain_cumulative_across_turns() {
    let events = vec![
        context(1, "main", 1, &[]),
        use_skill(2, "main", 1, "tool_alpha", 0, "alpha"),
        result(3, "main", 1, "tool_alpha", "ok", false),
        context(4, "main", 2, &["beta"]),
    ];

    assert_eq!(
        loaded_skill_names(&events, "main"),
        vec!["alpha".to_string(), "beta".to_string()]
    );
}

#[test]
fn loaded_skill_names_are_conversation_scoped() {
    let events = vec![
        context(1, "main", 1, &[]),
        context(2, "review", 1, &[]),
        use_skill(3, "review", 1, "tool_review", 0, "review"),
        result(4, "review", 1, "tool_review", "ok", false),
    ];

    assert!(loaded_skill_names(&events, "main").is_empty());
    assert_eq!(loaded_skill_names(&events, "review"), vec!["review".to_string()]);
}

#[test]
fn loaded_skill_names_are_sorted_and_distinct() {
    let events = vec![
        context(1, "main", 1, &["zeta", "alpha", "zeta"]),
        use_skill(2, "main", 1, "t1", 0, "alpha"),
        result(3, "main", 1, "t1", "ok", false),
    ];
    assert_eq!(
        loaded_skill_names(&events, "main"),
        vec!["alpha".to_string(), "zeta".to_string()]
    );
}

#[test]
fn skill_snapshot_search_finds_last_matching_turn() {
    let events = vec![
        context(1, "main", 1, &[]),
        context(2, "other", 2, &[]),
        context(3, "main", 2, &["a"]),
        context(4, "main", 2, &["b"]),
        context(5, "main", 3, &[]),
    ];
    assert_eq!(find_skill_snapshot(&events, events.len(), "main", 2, false), Some(3));
    assert_eq!(find_skill_snapshot(&events, 3, "main", 2, false), Some(2));
    assert_eq!(find_skill_snapshot(&events, 2, "main", 2, false), None);
    assert_eq!(find_skill_snapshot(&events, events.len(), "main", 3, true), Some(3));
    assert_eq!(find_skill_snapshot(&events, events.len(), "main", 1, true), None);
    assert_eq!(find_skill_snapshot(&events, events.len(), "other", 5, true), Some(1));
}
