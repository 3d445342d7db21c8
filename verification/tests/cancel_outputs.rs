use kuku::inline_tools::{
    cancelled_permission_outputs, cancelled_result, permission_denied_outputs, ToolResult,
};
use kuku::json::JsonValue;
use kuku::types::{ToolKind, UiEvent};

fn cancelled_marker() -> JsonValue {
    JsonValue::Object(vec![("kind".to_string(), JsonValue::String("cancelled".to_string()))])
}

fn check_cancelled_envelope(result: ToolResult) {
    assert_eq!(result.status, "cancelled");
    assert_eq!(result.summary, "test cancel");
    assert!(result.model_content.is_empty());
    assert!(!result.truncated);
    assert_eq!(result.structured, Some(cancelled_marker()));
}

#[test]
fn tests_cancelled_tool_result_envelope_has_correct_fields() {
    check_cancelled_envelope(cancelled_result("test cancel".to_string()));
}

#[test]
fn lifecycle_cancelled_tool_result_envelope_has_correct_fields() {
    check_cancelled_envelope(cancelled_result("test cancel".to_string()));
}

#[test]
fn cancelled_permission_reports_cancelled_tool_end() {
    let (result, end) = cancelled_permission_outputs("tool_cancel".to_string());
    assert_eq!(result.status, "cancelled");
    assert_eq!(result.summary, "permission request cancelled");
    assert_eq!(
        end,
        UiEvent::ToolEnd {
            id: "tool_cancel".to_string(),
            status: "cancelled".to_string(),
            summary: "permission request cancelled".to_string(),
            model_content: None,
            result: Some(cancelled_marker()),
        }
    );
}

#[test]
fn denied_call_is_reported_blocked() {
    let marker = JsonValue::Object(vec![("kind".to_string(), JsonValue::String("blocked".to_string()))]);
    let (result, start, end) =
        permission_denied_outputs("tool_queued", "run_command", "printf hi", ToolKind::Simple, &marker);
    assert_eq!(result.status, "blocked");
    assert_eq!(result.summary, "permission denied");
    assert!(result.model_content.is_empty());
    assert_eq!(
        start,
        UiEvent::ToolStart {
            id: "tool_queued".to_string(),
            tool: "run_command".to_string(),
            summary: "printf hi".to_string(),
            kind: ToolKind::Simple,
        }
    );
    assert!(matches!(end, UiEvent::ToolEnd { ref id, ref status, ref summary, model_content: None, result: Some(ref m) }
        if id == "tool_queued" && status == "blocked" && summary == "permission denied" && *m == marker));
}
