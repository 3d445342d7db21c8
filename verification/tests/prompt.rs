use kuku::error::Error;
use kuku::events::{EventPayload, StoredEvent};
use kuku::prompt::{
    append_current_turn_prefix_once, append_handoff_instruction, assembly_runtime_prefix,
    build_current_user_message, check_frozen_request, insert_current_turn_metadata_block,
    replace_current_user_message, replace_latest_user_message, replace_text, CanonicalMessage,
    MessageBlock, Role, join_notice_bodies, notice_event_positions,
};

fn message_text(message: &CanonicalMessage) -> &str {
    match &message.blocks[0] {
        MessageBlock::Text(text) => text,
        _ => panic!("expected text block"),
    }
}

#[test]
fn delegated_body_replacement_prefers_current_wrapped_message() {
    let raw = "same text";
    let wrapped = "<kuku_delegated_prompt>\nsame text\n</kuku_delegated_prompt>";
    let replacement = CanonicalMessage::user_text("provider body");
    let mut history = vec![
        CanonicalMessage::user_text(raw),
        CanonicalMessage::assistant(vec![MessageBlock::Text("answer".to_string())]),
        CanonicalMessage::user_text(wrapped),
    ];

    assert!(replace_current_user_message(&mut history, raw, wrapped, replacement).is_some());

    assert_eq!(message_text(&history[0]), raw);
    assert_eq!(message_text(&history[2]), "provider body");
}

#[test]
fn replacement_falls_back_to_the_raw_prompt() {
    let mut history = vec![
        CanonicalMessage::user_text("first"),
        CanonicalMessage::user_text("task"),
    ];
    let at = replace_current_user_message(
        &mut history,
        "task",
        "<wrapped>task</wrapped>",
        CanonicalMessage::user_text("body"),
    );
    assert_eq!(at, Some(1));
    assert_eq!(message_text(&history[1]), "body");
    let missing =
        replace_latest_user_message(&mut history, "absent", CanonicalMessage::user_text("x"));
    assert_eq!(missing, None);
    assert_eq!(history.len(), 2);
}

#[test]
fn current_turn_prefix_is_appended_once_to_restored_prelude() {
    let prefix = "You are a careful code and document editor";
    let mut missing = vec![CanonicalMessage::user_text("old snapshot")];
    append_current_turn_prefix_once(&mut missing, prefix);
    assert_eq!(missing.len(), 2);
    assert_eq!(message_text(&missing[1]), prefix);

    append_current_turn_prefix_once(&mut missing, prefix);
    assert_eq!(missing.len(), 2);

    let mut existing = vec![CanonicalMessage::user_text(&format!("before {prefix} after"))];
    append_current_turn_prefix_once(&mut existing, prefix);
    assert_eq!(existing.len(), 1);
}

#[test]
fn frozen_request_rejects_divergent_current_input() {
    let history = vec![CanonicalMessage::user_text("task with hook context")];
    let input = vec![CanonicalMessage::user_text("task")];
    let result = check_frozen_request(&history, 0, &input);
    assert!(matches!(
        result,
        Err(Error::InvalidEventStream(message)) if message.contains("current input does not match")
    ));
    let same = vec![CanonicalMessage::user_text("task with hook context")];
    assert!(check_frozen_request(&history, 0, &same).is_ok());
    assert!(check_frozen_request(&history, 1, &same).is_err());
}

#[test]
fn current_user_message_puts_the_prefix_first() {
    let m = build_current_user_message(Some("ctx".to_string()), "do it");
    assert_eq!(m.role, Role::User);
    assert_eq!(
        m.blocks,
        vec![MessageBlock::Text("ctx".to_string()), MessageBlock::Text("do it".to_string())]
    );
    let plain = build_current_user_message(None, "do it");
    assert_eq!(plain.blocks, vec![MessageBlock::Text("do it".to_string())]);
}

#[test]
fn metadata_block_goes_before_the_last_block() {
    let mut m = build_current_user_message(Some("ctx".to_string()), "do it");
    insert_current_turn_metadata_block(&mut m, "meta".to_string());
    assert_eq!(
        m.blocks,
        vec![
            MessageBlock::Text("ctx".to_string()),
            MessageBlock::Text("meta".to_string()),
            MessageBlock::Text("do it".to_string())
        ]
    );
}

#[test]
fn replace_text_replaces_every_occurrence() {
    assert_eq!(replace_text("a{{x}}b{{x}}", "{{x}}", "-"), "a-b-");
    assert_eq!(replace_text("none", "{{x}}", "-"), "none");
}

#[test]
fn runtime_prefix_wraps_notices_and_inbox_in_their_templates() {
    assert_eq!(
        assembly_runtime_prefix(Some("note"), Some("mail"), None, None).unwrap(),
        "<kuku_runtime_notices>note</kuku_runtime_notices>\n\
<kuku_conversation_inbox>mail</kuku_conversation_inbox>"
    );
    assert_eq!(
        assembly_runtime_prefix(Some(""), None, None, None),
        None
    );
    assert_eq!(
        assembly_runtime_prefix(None, Some("mail"), None, Some("[{{conversation_inbox_content}}]")).unwrap(),
        "[mail]"
    );
}

#[test]
fn handoff_instruction_goes_inside_the_notices_block() {
    let prefix = "<kuku_runtime_notices>note</kuku_runtime_notices>".to_string();
    assert_eq!(
        append_handoff_instruction(Some(prefix), "hand off", None, None).unwrap(),
        "<kuku_runtime_notices>note\n\nhand off</kuku_runtime_notices>"
    );
    assert_eq!(
        append_handoff_instruction(None, "hand off", None, None).unwrap(),
        "<kuku_runtime_notices>hand off</kuku_runtime_notices>\n\
<kuku_conversation_inbox></kuku_conversation_inbox>"
    );
}

fn user_message(id: u64, conversation: &str, from: Option<&str>, via: Option<&str>) -> StoredEvent {
    StoredEvent {
        id,
        payload: EventPayload::MessageUser {
            conversation: conversation.to_string(),
            turn: 1,
            text: "hi".to_string(),
            from: from.map(str::to_string),
            via_tool_call_id: via.map(str::to_string),
        },
    }
}

#[test]
fn notices_skip_messages_relayed_to_the_conversation() {
    let events = vec![
        user_message(1, "main", None, None),
        user_message(2, "main", Some("helper"), Some("tool_1")),
        user_message(3, "other", Some("helper"), Some("tool_2")),
        user_message(4, "main", Some("helper"), None),
    ];
    assert_eq!(notice_event_positions(&events, "main"), vec![0, 2, 3]);
    assert_eq!(notice_event_positions(&events, "other"), vec![0, 1, 3]);
    assert_eq!(notice_event_positions(&[], "main"), Vec::<usize>::new());
}

#[test]
fn notice_bodies_join_with_blank_lines() {
    assert_eq!(join_notice_bodies(&[]), None);
    assert_eq!(join_notice_bodies(&["a".to_string()]), Some("a".to_string()));
    assert_eq!(
        join_notice_bodies(&["a".to_string(), "b".to_string()]),
        Some("a\n\nb".to_string())
    );
}
