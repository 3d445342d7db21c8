use kuku::error::Error;
use kuku::events::{EventPayload, StoredEvent};
use kuku::json::JsonValue;
use kuku::lifecycle::{reduce_lifecycle, OpenToolKind};
use kuku::resume::{reject_interrupted_open_tools, resumed_state};

fn event(id: u64, payload: EventPayload) -> StoredEvent {
    StoredEvent { id, payload }
}

fn args_for(path: &str) -> JsonValue {
    JsonValue::Object(vec![("path".to_string(), JsonValue::String(path.to_string()))])
}

fn turn_start(id: u64, turn: u64) -> StoredEvent {
    event(id, EventPayload::TurnStarted { conversation: "main".to_string(), turn })
}

fn tool_call(id: u64, turn: u64, tool_call_id: &str, index: u64) -> StoredEvent {
    event(
        id,
        EventPayload::ToolCall {
            turn,
            conversation: None,
            tool_call_id: tool_call_id.to_string(),
            request_id: format!("req_{turn}"),
            index,
            tool: "write".to_string(),
            args: args_for(tool_call_id),
        },
    )
}

fn permission_requested(id: u64, turn: u64, tool_call_id: &str) -> StoredEvent {
    event(
        id,
        EventPayload::PermissionRequested {
            turn,
            tool_call_id: tool_call_id.to_string(),
            tool: "write".to_string(),
            risk: "modifies_files".to_string(),
            summary: format!("request {tool_call_id}"),
            candidate: format!("candidate {tool_call_id}"),
            source: "tool_policy".to_string(),
        },
    )
}

fn permission_allow(id: u64, turn: u64, tool_call_id: &str) -> StoredEvent {
    event(
        id,
        EventPayload::PermissionAllow {
            turn,
            tool_call_id: tool_call_id.to_string(),
            tool: "write".to_string(),
            scope: "once".to_string(),
            matcher: "write".to_string(),
            source: "host".to_string(),
        },
    )
}

fn permission_deny(id: u64, turn: u64, tool_call_id: &str) -> StoredEvent {
    event(
        id,
        EventPayload::PermissionDeny {
            turn,
            tool_call_id: tool_call_id.to_string(),
            tool: "write".to_string(),
            reason: "no".to_string(),
            source: "host".to_string(),
        },
    )
}

fn tool_result(id: u64, turn: u64, tool_call_id: &str) -> StoredEvent {
    event(
        id,
        EventPayload::ToolResult {
            turn,
            conversation: None,
            tool_call_id: tool_call_id.to_string(),
            status: "ok".to_string(),
            summary: "done".to_string(),
            model_content: "done".to_string(),
            truncated: false,
        },
    )
}

#[test]
fn pending_permission_keeps_tool_call_and_request_fields() {
    let state = reduce_lifecycle(&[
        turn_start(1, 1),
        tool_call(2, 1, "tc_1", 7),
        permission_requested(3, 1, "tc_1"),
    ]);

    assert_eq!(state.open_tools.len(), 0);
    assert_eq!(state.pending_permissions.len(), 1);
    let pending = &state.pending_permissions[0];
    assert_eq!(pending.turn, 1);
    assert_eq!(pending.tool_call.id, "tc_1");
    assert_eq!(pending.tool_call.name, "write");
    assert_eq!(pending.tool_call.args, args_for("tc_1"));
    assert_eq!(pending.tool_call.index, 7);
    assert_eq!(pending.request.id, "tc_1");
    assert_eq!(pending.request.tool_call_id, "tc_1");
    assert_eq!(pending.request.tool, "write");
    assert_eq!(pending.request.risk, "modifies_files");
    assert_eq!(pending.request.summary, "request tc_1");
    assert_eq!(pending.request.candidate, "candidate tc_1");
    assert_eq!(pending.request.source, "tool_policy");
}

#[test]
fn closed_tool_is_not_returned() {
    let state = reduce_lifecycle(&[
        turn_start(1, 1),
        tool_call(2, 1, "tc_1", 0),
        permission_requested(3, 1, "tc_1"),
        permission_allow(4, 1, "tc_1"),
        tool_result(5, 1, "tc_1"),
    ]);

    assert!(state.open_tools.is_empty());
    assert!(state.pending_permissions.is_empty());
}

#[test]
fn denied_without_result_is_open_denied() {
    let state = reduce_lifecycle(&[
        turn_start(1, 1),
        tool_call(2, 1, "tc_1", 0),
        permission_requested(3, 1, "tc_1"),
        permission_deny(4, 1, "tc_1"),
    ]);

    assert_eq!(state.pending_permissions.len(), 0);
    assert_eq!(state.open_tools.len(), 1);
    assert_eq!(state.open_tools[0].kind, OpenToolKind::DeniedWithoutResult);
    assert_eq!(state.open_tools[0].tool_call.id, "tc_1");
}

#[test]
fn allowed_without_result_is_open_allowed() {
    let state = reduce_lifecycle(&[
        turn_start(1, 1),
        tool_call(2, 1, "tc_1", 0),
        permission_requested(3, 1, "tc_1"),
        permission_allow(4, 1, "tc_1"),
    ]);

    assert_eq!(state.pending_permissions.len(), 0);
    assert_eq!(state.open_tools.len(), 1);
    assert_eq!(state.open_tools[0].kind, OpenToolKind::AllowedWithoutResult);
    assert_eq!(state.open_tools[0].tool_call.id, "tc_1");
}

#[test]
fn multiple_pending_permissions_are_sorted_by_tool_call_index() {
    let state = reduce_lifecycle(&[
        turn_start(1, 1),
        tool_call(2, 1, "second", 2),
        tool_call(3, 1, "first", 1),
        permission_requested(4, 1, "second"),
        permission_requested(5, 1, "first"),
    ]);

    let ids = state
        .pending_permissions
        .iter()
        .map(|pending| pending.tool_call.id.as_str())
        .collect::<Vec<_>>();
    assert_eq!(ids, vec!["first", "second"]);
}

#[test]
fn legacy_tool_without_result_is_open_interrupted() {
    let state = reduce_lifecycle(&[turn_start(1, 1), tool_call(2, 1, "tc_1", 0)]);

    assert_eq!(state.pending_permissions.len(), 0);
    assert_eq!(state.open_tools.len(), 1);
    assert_eq!(state.open_tools[0].kind, OpenToolKind::Interrupted);
    assert_eq!(state.open_tools[0].tool_call.id, "tc_1");
}

#[test]
fn duplicate_tool_call_does_not_resurrect_closed_tool() {
    let state = reduce_lifecycle(&[
        turn_start(1, 1),
        tool_call(2, 1, "tc_1", 0),
        tool_result(3, 1, "tc_1"),
        tool_call(4, 1, "tc_1", 0),
    ]);

    assert!(state.open_tools.is_empty());
    assert!(state.pending_permissions.is_empty());
}

#[test]
fn duplicate_tool_call_does_not_drop_pending_permission() {
    let state = reduce_lifecycle(&[
        turn_start(1, 1),
        tool_call(2, 1, "tc_1", 0),
        permission_requested(3, 1, "tc_1"),
        tool_call(4, 1, "tc_1", 9),
    ]);

    assert_eq!(state.open_tools.len(), 0);
    assert_eq!(state.pending_permissions.len(), 1);
    assert_eq!(state.pending_permissions[0].tool_call.id, "tc_1");
    assert_eq!(state.pending_permissions[0].tool_call.index, 0);
    assert_eq!(state.pending_permissions[0].request.summary, "request tc_1");
}

#[test]
fn repeated_indices_are_ordered_by_turn_then_index_then_id() {
    let state = reduce_lifecycle(&[
        turn_start(1, 2),
        tool_call(2, 2, "b", 0),
        tool_call(3, 2, "a", 0),
        turn_start(4, 1),
        tool_call(5, 1, "c", 0),
        permission_requested(6, 2, "b"),
        permission_requested(7, 2, "a"),
        permission_requested(8, 1, "c"),
    ]);

    let pending_ids = state
        .pending_permissions
        .iter()
        .map(|pending| pending.tool_call.id.as_str())
        .collect::<Vec<_>>();
    assert_eq!(pending_ids, vec!["c", "a", "b"]);
}

#[test]
fn empty_log_has_nothing_open() {
    let state = reduce_lifecycle(&[]);
    assert!(state.open_tools.is_empty());
    assert!(state.pending_permissions.is_empty());
}

#[test]
fn resumed_state_waits_for_the_first_pending_permission() {
    let state = reduce_lifecycle(&[
        turn_start(1, 1),
        tool_call(2, 1, "first", 1),
        tool_call(3, 1, "second", 2),
        permission_requested(4, 1, "first"),
    ]);
    let resumed = resumed_state(Some(&state), 1);
    assert_eq!(resumed.queued_tool_calls.len(), 1);
    assert_eq!(resumed.queued_tool_calls[0].tool_call.id, "first");
    assert_eq!(resumed.queued_tool_calls[0].display_summary, "request first");
    assert_eq!(resumed.first_request.as_ref().unwrap().tool_call_id, "first");
    assert!(resumed.resumed_permission_requests.is_empty());
    let other_turn = resumed_state(Some(&state), 2);
    assert!(other_turn.queued_tool_calls.is_empty());
    assert!(other_turn.first_request.is_none());
}

#[test]
fn interrupted_open_tools_are_refused_on_resume() {
    let state = reduce_lifecycle(&[turn_start(1, 1), tool_call(2, 1, "tc_1", 0)]);
    let result = reject_interrupted_open_tools(Some(&state), "sess", "main");
    assert_eq!(
        result,
        Err(Error::InterruptedOpenTool(
            "session sess has unresolved tool call tc_1 from turn 1; review the session before resuming".to_string()
        ))
    );
    assert!(reject_interrupted_open_tools(Some(&state), "sess", "review").is_ok());
    assert!(reject_interrupted_open_tools(None, "sess", "main").is_ok());

    let closed = reduce_lifecycle(&[turn_start(1, 1), tool_call(2, 1, "tc_1", 0), tool_result(3, 1, "tc_1")]);
    assert!(reject_interrupted_open_tools(Some(&closed), "sess", "main").is_ok());
}

#[test]
fn rollback_filtered_pending_permission_is_ignored() {
    let state = reduce_lifecycle(&[
        turn_start(1, 1),
        tool_call(2, 1, "old", 0),
        permission_requested(3, 1, "old"),
        turn_start(4, 2),
        event(5, EventPayload::TurnRollback { turn: 2, target_turn: 1 }),
    ]);

    assert!(state.open_tools.is_empty());
    assert!(state.pending_permissions.is_empty());
}

#[test]
fn undone_conversation_rollback_keeps_pending_permission() {
    let state = reduce_lifecycle(&[
        turn_start(1, 1),
        tool_call(2, 1, "old", 0),
        permission_requested(3, 1, "old"),
        event(4, EventPayload::ConversationRollback { conversation: "main".to_string(), to_turn: 1, to_event_id: 2 }),
        event(5, EventPayload::ConversationRollbackUndone { conversation: "main".to_string(), rollback_event_id: 4 }),
    ]);

    assert_eq!(state.pending_permissions.len(), 1);
}
