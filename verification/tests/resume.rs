use kuku::error::Error;
use kuku::events::{EventPayload, StoredEvent};
use kuku::json::JsonValue;
use kuku::resume::{
    has_terminal_event, last_input_tokens, next_turn, parse_request_number,
    resumed_model_request_count, resumed_request_num, resumed_tool_rounds, validate_existing_session,
};
use kuku::tools::has_permission_decision;

fn response(id: u64, conversation: Option<&str>, request_id: &str) -> StoredEvent {
    StoredEvent {
        id,
        payload: EventPayload::ModelResponse {
            conversation: conversation.map(str::to_string),
            turn: 4,
            request_id: request_id.to_string(),
            input_tokens_total: None,
        },
    }
}

fn recovery(id: u64, conversation: &str, from: &str, to: &str) -> StoredEvent {
    StoredEvent {
        id,
        payload: EventPayload::ModelRecovery {
            conversation: conversation.to_string(),
            turn: 4,
            from_request_id: from.to_string(),
            to_request_id: to.to_string(),
        },
    }
}

fn tool_call(id: u64, conversation: Option<&str>, request_id: &str) -> StoredEvent {
    StoredEvent {
        id,
        payload: EventPayload::ToolCall {
            turn: 4,
            conversation: conversation.map(str::to_string),
            tool_call_id: format!("tool_{id}"),
            request_id: request_id.to_string(),
            index: 0,
            tool: "read_file".to_string(),
            args: JsonValue::Object(vec![]),
        },
    }
}

#[test]
fn resumed_request_identity_is_scoped_to_conversation() {
    let events = vec![
        response(1, None, "req_9"),
        response(2, Some("review"), "req_1"),
        recovery(3, "review", "req_1", "req_2"),
        tool_call(4, None, "req_9"),
        tool_call(5, Some("review"), "req_1"),
    ];
    let main = "main";
    let review = "review";

    assert_eq!(1, resumed_model_request_count(&events, 4, main));
    assert_eq!(9, resumed_request_num(&events, 4, main));
    assert_eq!(1, resumed_tool_rounds(&events, 4, main));

    assert_eq!(2, resumed_model_request_count(&events, 4, review));
    assert_eq!(2, resumed_request_num(&events, 4, review));
    assert_eq!(1, resumed_tool_rounds(&events, 4, review));
}

#[test]
fn request_numbers_are_parsed_from_request_ids() {
    assert_eq!(parse_request_number("req_12"), Some(12));
    assert_eq!(parse_request_number("req_"), None);
    assert_eq!(parse_request_number("request_3"), None);
    assert_eq!(parse_request_number("req_1x"), None);
}

#[test]
fn next_turn_follows_the_largest_started_turn() {
    let events = vec![
        StoredEvent { id: 1, payload: EventPayload::SessionCreated { session_id: "s".into() } },
        StoredEvent { id: 2, payload: EventPayload::TurnStarted { conversation: "main".into(), turn: 3 } },
        StoredEvent { id: 3, payload: EventPayload::TurnStarted { conversation: "review".into(), turn: 1 } },
    ];
    assert_eq!(next_turn(&events), 4);
    assert_eq!(next_turn(&[]), 1);
}

#[test]
fn existing_session_must_begin_with_its_creation() {
    let good = vec![StoredEvent { id: 1, payload: EventPayload::SessionCreated { session_id: "s".into() } }];
    assert!(validate_existing_session(&good).is_ok());
    assert!(validate_existing_session(&[]).is_ok());
    let bad = vec![StoredEvent { id: 1, payload: EventPayload::TurnStarted { conversation: "main".into(), turn: 1 } }];
    assert_eq!(
        validate_existing_session(&bad),
        Err(Error::InvalidEventStream("first event must be session.created".to_string()))
    );
}

#[test]
fn terminal_events_end_only_their_own_turn_and_conversation() {
    let events = vec![
        StoredEvent { id: 1, payload: EventPayload::TurnCompleted { conversation: "main".into(), turn: 2 } },
        StoredEvent {
            id: 2,
            payload: EventPayload::TurnCancelled { conversation: "review".into(), turn: 3, reason: "user".into() },
        },
    ];
    assert!(has_terminal_event(&events, "main", 2));
    assert!(!has_terminal_event(&events, "main", 3));
    assert!(has_terminal_event(&events, "review", 3));
}

#[test]
fn last_input_tokens_reads_the_latest_recorded_total() {
    let mut first = response(1, None, "req_1");
    if let EventPayload::ModelResponse { input_tokens_total, .. } = &mut first.payload {
        *input_tokens_total = Some(10);
    }
    let mut second = response(2, None, "req_2");
    if let EventPayload::ModelResponse { input_tokens_total, .. } = &mut second.payload {
        *input_tokens_total = Some(25);
    }
    let third = response(3, None, "req_3");
    assert_eq!(last_input_tokens(&[first, second, third]), Some(25));
    assert_eq!(last_input_tokens(&[]), None);
}

#[test]
fn permission_decisions_are_found_by_tool_call_id() {
    let events = vec![StoredEvent {
        id: 1,
        payload: EventPayload::PermissionDeny {
            turn: 1,
            tool_call_id: "tc_1".into(),
            tool: "write".into(),
            reason: "no".into(),
            source: "host".into(),
        },
    }];
    assert!(has_permission_decision(&events, "tc_1"));
    assert!(!has_permission_decision(&events, "tc_2"));
}
