use kuku::error::Error;
use kuku::events::{EventPayload, StoredEvent};
use kuku::json::JsonValue;
use kuku::lifecycle::reduce_lifecycle;
use kuku::recovery::{
    interrupt_message, preflight_estimate, preflight_headroom, recovery_decision, ProviderFailureKind,
    RecoveryDecision,
};
use kuku::resume::session_turn;
use kuku::run_step::{
    check_cancellable, handed_model_content, phase_step, PhaseAction, RunPhase,
};
use kuku::types::{PermissionRequest, ProviderUsage};

#[test]
fn recovery_is_tried_once_within_the_loop_limit() {
    assert_eq!(recovery_decision(0, 3, true), Ok(RecoveryDecision::Retry { next_request_num: 4 }));
    assert_eq!(recovery_decision(1, 3, true), Ok(RecoveryDecision::Interrupt("length".into())));
    assert_eq!(recovery_decision(0, 20, true), Ok(RecoveryDecision::Interrupt("loop_limit".into())));
    assert_eq!(recovery_decision(0, 3, false), Ok(RecoveryDecision::Interrupt("length".into())));
    assert_eq!(
        recovery_decision(0, u64::MAX, true),
        Err(Error::InvalidEventStream("provider request id overflow during recovery".into()))
    );
}

#[test]
fn interruption_messages() {
    assert_eq!(
        interrupt_message("length", 1, 4096),
        "model reached max_output_tokens=4096 after recovery attempt 1/1; the turn remains incomplete"
    );
    assert_eq!(
        interrupt_message("loop_limit", 1, 4096),
        "model output limit reached; recovery unavailable (loop_limit)"
    );
    assert_eq!(
        interrupt_message("length", 0, 4096),
        "model output limit reached; recovery unavailable (length)"
    );
}

#[test]
fn preflight_checks_the_room_for_the_recovery_suffix() {
    let usage = ProviderUsage {
        input_tokens: Some(100),
        output_tokens: Some(50),
        cache_read_input_tokens: Some(20),
        cache_creation_input_tokens: None,
    };
    assert_eq!(preflight_estimate(Some(&usage)), Ok(Some(120)));
    assert_eq!(preflight_estimate(None), Ok(None));
    let big = ProviderUsage { input_tokens: Some(u32::MAX as u64 + 1), ..usage };
    assert_eq!(
        preflight_estimate(Some(&big)),
        Err(Error::InvalidEventStream("model input usage exceeds context accounting range".into()))
    );
    assert_eq!(preflight_headroom(Some(500), 132, None, None), Ok(()));
    assert_eq!(preflight_headroom(None, 132, None, None), Ok(()));
    assert_eq!(
        preflight_headroom(Some(100), 132, Some("anthropic".into()), Some("m".into())),
        Err(Error::Provider {
            kind: ProviderFailureKind::ContextTooLarge,
            message: "insufficient context headroom for output-limit recovery".into(),
            provider: Some("anthropic".into()),
            model: Some("m".into()),
        })
    );
}

fn request(id: &str, call: &str) -> PermissionRequest {
    PermissionRequest {
        id: id.into(),
        tool_call_id: call.into(),
        tool: "write".into(),
        risk: "r".into(),
        summary: "s".into(),
        candidate: "c".into(),
        source: "default_ask".into(),
    }
}

#[test]
fn tests_cancel_pending_permission_rejects_mismatched_queued_tool() {
    let error = check_cancellable(&request("req_cancel", "tool_request"), Some("tool_queued")).unwrap_err();
    assert!(
        matches!(error, Error::InvalidEventStream(ref message) if message.contains("tool_request") && message.contains("tool_queued"))
    );
    assert_eq!(
        error,
        Error::InvalidEventStream(
            "pending permission req_cancel expects tool call tool_request, but queued tool call is tool_queued".into()
        )
    );
    assert_eq!(check_cancellable(&request("req_cancel", "tool_cancel"), Some("tool_cancel")), Ok(()));
    assert_eq!(
        check_cancellable(&request("req_cancel", "tool_cancel"), None),
        Err(Error::InvalidEventStream("pending permission req_cancel has no queued tool call".into()))
    );
}

#[test]
fn permissions_cancel_pending_permission_rejects_mismatched_queued_tool() {
    let error = check_cancellable(&request("req_cancel", "tool_request"), Some("tool_queued")).unwrap_err();
    assert!(
        matches!(error, Error::InvalidEventStream(ref message) if message.contains("tool_request") && message.contains("tool_queued"))
    );
    assert_eq!(
        error,
        Error::InvalidEventStream(
            "pending permission req_cancel expects tool call tool_request, but queued tool call is tool_queued".into()
        )
    );
    assert_eq!(check_cancellable(&request("req_cancel", "tool_cancel"), Some("tool_cancel")), Ok(()));
    assert_eq!(
        check_cancellable(&request("req_cancel", "tool_cancel"), None),
        Err(Error::InvalidEventStream("pending permission req_cancel has no queued tool call".into()))
    );
}

#[test]
fn run_phases_report_terminal_events_once() {
    assert_eq!(phase_step(RunPhase::Cancelled { turn: 3 }), (RunPhase::Done, PhaseAction::ReportCancelled { turn: 3 }));
    assert_eq!(phase_step(RunPhase::Finished), (RunPhase::Done, PhaseAction::ReportDone));
    assert_eq!(phase_step(RunPhase::Done), (RunPhase::Done, PhaseAction::End));
    assert_eq!(
        phase_step(RunPhase::WaitingForPermission),
        (RunPhase::WaitingForPermission, PhaseAction::RepeatPermissionRequest)
    );
    let mut phase = RunPhase::Cancelled { turn: 1 };
    let mut reports = 0;
    for _ in 0..5 {
        let (next, action) = phase_step(phase);
        if action != PhaseAction::End {
            reports += 1;
        }
        phase = next;
    }
    assert_eq!(reports, 1);
    assert_eq!(handed_model_content(String::new()), None);
    assert_eq!(handed_model_content("x".into()), Some("x".to_string()));
}

#[test]
fn a_session_resumes_the_turn_of_its_waiting_permission() {
    let events = vec![
        StoredEvent { id: 1, payload: EventPayload::SessionCreated { session_id: "s".into() } },
        StoredEvent { id: 2, payload: EventPayload::TurnStarted { conversation: "main".into(), turn: 4 } },
        StoredEvent {
            id: 3,
            payload: EventPayload::ToolCall {
                turn: 4,
                conversation: None,
                tool_call_id: "tc".into(),
                request_id: "req_1".into(),
                index: 0,
                tool: "write".into(),
                args: JsonValue::Object(vec![]),
            },
        },
        StoredEvent {
            id: 4,
            payload: EventPayload::PermissionRequested {
                turn: 4,
                tool_call_id: "tc".into(),
                tool: "write".into(),
                risk: "r".into(),
                summary: "s".into(),
                candidate: "c".into(),
                source: "default_ask".into(),
            },
        },
    ];
    let lifecycle = reduce_lifecycle(&events);
    assert_eq!(session_turn(Some(&lifecycle), &events), (4, true));
    assert_eq!(session_turn(None, &events), (5, false));
    assert_eq!(session_turn(None, &[]), (1, false));
}
