use kuku::error::Error;
use kuku::json::{JsonNumber, JsonValue};
use kuku::prompt::{
    add_plugin_notice, extend_first_prelude, insert_hook_context, place_current_user_message,
    CanonicalMessage, MessageBlock,
};
use kuku::run_step::{
    agent_block_reason, agent_call_args, agent_slot_label, check_pending_request, final_stop_reason,
    gate_action, gate_request, handoff_summary_text, next_pending_action, plan_permission_choice,
    record_response, request_id, response_input_total, slot_block_reason, ChoiceStep, GateAction,
    GateDecisionKind, PendingAction, RunCounters, StepState, fold_pre_hooks, queued_call_step,
    unknown_tool_message, HookOutcome, HookVerdict, QueuedCallStep,
};
use kuku::tools::{permission_candidate, permission_rule, GateSource};
use kuku::types::{PermissionChoice, PermissionRequest, ProviderUsage};

fn state(front: Option<&str>) -> StepState {
    StepState {
        cancelled: false,
        has_pending_event: false,
        has_pending_error: false,
        front_tool: front.map(str::to_string),
        front_inline_available: false,
        front_has_resumed_request: false,
    }
}

fn obj(entries: Vec<(&str, &str)>) -> JsonValue {
    JsonValue::Object(entries.into_iter().map(|(k, v)| (k.to_string(), JsonValue::String(v.to_string()))).collect())
}

fn text_of(m: &CanonicalMessage) -> Vec<String> {
    m.blocks
        .iter()
        .map(|b| match b {
            MessageBlock::Text(t) => t.clone(),
            _ => panic!("expected text"),
        })
        .collect()
}

#[test]
fn next_step_follows_the_priorities() {
    assert_eq!(next_pending_action(&StepState { cancelled: true, has_pending_event: true, ..state(Some("agent")) }), PendingAction::FinishCancelled);
    assert_eq!(next_pending_action(&StepState { has_pending_event: true, has_pending_error: true, ..state(None) }), PendingAction::EmitPendingEvent);
    assert_eq!(next_pending_action(&StepState { has_pending_error: true, ..state(None) }), PendingAction::Fail);
    assert_eq!(next_pending_action(&state(Some("agent"))), PendingAction::DelegateToAgent);
    assert_eq!(
        next_pending_action(&StepState { front_inline_available: true, front_has_resumed_request: true, ..state(Some("use_skill")) }),
        PendingAction::RunInlineSkillTool
    );
    assert_eq!(
        next_pending_action(&StepState { front_has_resumed_request: true, ..state(Some("write_file")) }),
        PendingAction::AskResumedPermission
    );
    assert_eq!(next_pending_action(&state(Some("write_file"))), PendingAction::GateToolCall);
    assert_eq!(next_pending_action(&state(None)), PendingAction::CallProvider);
}

#[test]
fn delegation_limits() {
    assert_eq!(agent_block_reason(2, 0).as_deref(), Some("blocked: maximum agent delegation depth (2) reached"));
    assert_eq!(agent_block_reason(1, 32).as_deref(), Some("blocked: maximum concurrent slots (32) reached"));
    assert_eq!(agent_block_reason(1, 31), None);
    assert_eq!(slot_block_reason(32).as_deref(), Some("blocked: maximum concurrent slots (32) reached"));
    assert_eq!(slot_block_reason(0), None);
}

#[test]
fn agent_call_arguments_and_label() {
    let (to, message, tier) = agent_call_args(&obj(vec![("to", "helper"), ("message", "check it"), ("tier", "fast")]));
    assert_eq!((to.as_str(), message.as_str(), tier.as_deref()), ("helper", "check it", Some("fast")));
    let (to, message, tier) = agent_call_args(&obj(vec![]));
    assert_eq!((to.as_str(), message.as_str(), tier), ("", "", None));
    assert_eq!(agent_slot_label("main/helper", "  do the thing  "), "main/helper · do the thing");
    assert_eq!(agent_slot_label("c", &"x".repeat(61)), format!("c · {}...", "x".repeat(60)));
}

#[test]
fn gate_verdicts_become_actions() {
    assert_eq!(gate_action(GateDecisionKind::Ask, GateSource::DefaultAsk, false), GateAction::AskHost);
    assert_eq!(gate_action(GateDecisionKind::Deny, GateSource::HardGuard, false), GateAction::Refuse);
    assert_eq!(
        gate_action(GateDecisionKind::Allow, GateSource::ProjectPolicy, false),
        GateAction::Run { record: Some(PermissionChoice::Project) }
    );
    assert_eq!(gate_action(GateDecisionKind::Allow, GateSource::TrustPosture, false), GateAction::Run { record: None });
    assert_eq!(gate_action(GateDecisionKind::Allow, GateSource::SessionGrant, true), GateAction::Run { record: None });
    let request = gate_request("tc_1", "write_file", "modifies_files", "write a", "a", GateSource::HardGuard);
    assert_eq!(request.id, "tc_1");
    assert_eq!(request.tool_call_id, "tc_1");
    assert_eq!(request.source, "hard_guard");
}

#[test]
fn host_choices_become_plans() {
    let deny = plan_permission_choice(PermissionChoice::Deny, "write_file", true);
    assert_eq!(deny.step, ChoiceStep::Refuse);
    assert!(!deny.persist_project_rule);
    let project = plan_permission_choice(PermissionChoice::Project, "write_file", true);
    assert!(project.persist_project_rule);
    assert_eq!(project.step, ChoiceStep::Requeue);
    assert_eq!(plan_permission_choice(PermissionChoice::Once, "run_command", true).step, ChoiceStep::Run);
    assert_eq!(plan_permission_choice(PermissionChoice::Once, "write_file", false).step, ChoiceStep::Run);
}

#[test]
fn only_the_waiting_request_accepts_a_choice() {
    let waiting = PermissionRequest {
        id: "tc_1".into(),
        tool_call_id: "tc_1".into(),
        tool: "write".into(),
        risk: "r".into(),
        summary: "s".into(),
        candidate: "c".into(),
        source: "default_ask".into(),
    };
    assert_eq!(check_pending_request(Some(&waiting), "tc_1"), Ok(()));
    assert_eq!(
        check_pending_request(Some(&waiting), "tc_2"),
        Err(Error::PermissionRequestNotPending("tc_2".into()))
    );
    assert_eq!(check_pending_request(None, "tc_1"), Err(Error::PermissionRequestNotPending("tc_1".into())));
}

#[test]
fn a_response_updates_the_totals() {
    let mut c = RunCounters {
        input_tokens: 1,
        output_tokens: 2,
        cache_read_input_tokens: 3,
        cache_creation_input_tokens: 4,
        thinking_duration_ms: 5,
        model_request_count: 6,
        tool_rounds: 7,
    };
    let usage = ProviderUsage {
        input_tokens: Some(10),
        output_tokens: None,
        cache_read_input_tokens: Some(20),
        cache_creation_input_tokens: None,
    };
    record_response(&mut c, Some(&usage), 100, true);
    assert_eq!(
        c,
        RunCounters {
            input_tokens: 11,
            output_tokens: 2,
            cache_read_input_tokens: 23,
            cache_creation_input_tokens: 4,
            thinking_duration_ms: 105,
            model_request_count: 7,
            tool_rounds: 8,
        }
    );
    record_response(&mut c, None, 0, false);
    assert_eq!(c.model_request_count, 8);
    assert_eq!(c.tool_rounds, 8);
    assert_eq!(response_input_total(Some(&usage)), Some(30));
    assert_eq!(response_input_total(None), None);
    let big = ProviderUsage { input_tokens: Some(u32::MAX as u64 + 1), ..usage };
    assert_eq!(response_input_total(Some(&big)), None);
}

#[test]
fn stop_reasons_summaries_and_request_ids() {
    assert_eq!(final_stop_reason(Some("length".into()), true), "length");
    assert_eq!(final_stop_reason(None, true), "tool_use");
    assert_eq!(final_stop_reason(None, false), "end_turn");
    assert_eq!(handoff_summary_text("  summary  ", Some("input".into())), "summary");
    assert_eq!(handoff_summary_text("  ", Some("input".into())), "input");
    assert_eq!(handoff_summary_text("", None), "handoff summary unavailable");
    assert_eq!(request_id(12), "req_12");
}

#[test]
fn permission_candidates_and_rules() {
    let cmd = obj(vec![("command", "  cargo test ")]);
    assert_eq!(permission_candidate("/h", "/w", "run_command", &cmd), "cargo test");
    assert_eq!(permission_rule("/h", "/w", "run_command", &cmd), "run_command(cargo test)");
    let global = obj(vec![("scope", " global ")]);
    assert_eq!(permission_candidate("/h", "/w", "remember_memory", &global), "/h/memory.md");
    let project = obj(vec![("scope", "project")]);
    assert_eq!(permission_candidate("/h", "/w", "forget_memory", &project), "/h/p/w/memory.md");
    assert_eq!(permission_candidate("/h", "/w/../x", "forget_memory", &project), "");
    assert_eq!(permission_candidate("/h", "/w", "forget_memory", &obj(vec![("scope", "team")])), "");
    assert_eq!(permission_candidate("/h", "/w", "write_file", &obj(vec![("path", " a.txt ")])), "a.txt");
    let n = JsonValue::Object(vec![("path".to_string(), JsonValue::Number(JsonNumber::Unsigned(3)))]);
    assert_eq!(permission_candidate("/h", "/w", "read_file", &n), "");
}

#[test]
fn plugin_notice_joins_the_first_turns_blocks() {
    let names = vec!["pkg-a".to_string(), "pkg-b".to_string()];
    assert_eq!(
        add_plugin_notice(Some("notes".into()), 1, &names, None).unwrap(),
        "notes\n\n<kuku_system_notice>\nPlugins loaded: pkg-a, pkg-b. If not relevant to your current task, ignore.\n</kuku_system_notice>"
    );
    assert_eq!(
        add_plugin_notice(None, 1, &names, Some("[{{notice_body}}]")).unwrap(),
        "[Plugins loaded: pkg-a, pkg-b. If not relevant to your current task, ignore.]"
    );
    assert_eq!(add_plugin_notice(Some("notes".into()), 2, &names, None).as_deref(), Some("notes"));
    assert_eq!(add_plugin_notice(None, 1, &[], None), None);
}

#[test]
fn current_message_is_replaced_or_appended() {
    let mut history = vec![CanonicalMessage::user_text("task")];
    assert_eq!(place_current_user_message(&mut history, "task", "task", CanonicalMessage::user_text("framed")), 0);
    assert_eq!(text_of(&history[0]), vec!["framed".to_string()]);
    assert_eq!(place_current_user_message(&mut history, "new", "new", CanonicalMessage::user_text("next")), 1);
    assert_eq!(history.len(), 2);
}

#[test]
fn hook_output_goes_into_the_last_user_message() {
    let mut history = vec![
        CanonicalMessage::user_text("first"),
        CanonicalMessage::user(vec![MessageBlock::Text("prefix".into()), MessageBlock::Text("task".into())]),
        CanonicalMessage::assistant(vec![MessageBlock::Text("answer".into())]),
    ];
    insert_hook_context(&mut history, &["line one".to_string(), "line two".to_string()], None);
    assert_eq!(
        text_of(&history[1]),
        vec![
            "prefix".to_string(),
            "<kuku_hook_context>\nline one\nline two\n</kuku_hook_context>".to_string(),
            "task".to_string()
        ]
    );
    assert_eq!(text_of(&history[0]), vec!["first".to_string()]);
    let before = history.len();
    insert_hook_context(&mut history, &[], None);
    assert_eq!(history.len(), before);
}

#[test]
fn first_request_prelude_gets_the_catalogs() {
    let mut prelude = vec![CanonicalMessage::user_text("system")];
    extend_first_prelude(&mut prelude, true, Some("agents".into()), Some(String::new()));
    assert_eq!(prelude.len(), 2);
    assert_eq!(text_of(&prelude[1]), vec!["agents".to_string()]);
    extend_first_prelude(&mut prelude, false, Some("agents".into()), Some("skills".into()));
    assert_eq!(prelude.len(), 2);
}

fn hook(block: bool, stderr: &str, ctx: Option<&str>, args: Option<JsonValue>) -> HookOutcome {
    HookOutcome {
        block,
        stderr: stderr.to_string(),
        additional_context: ctx.map(str::to_string),
        updated_args: args,
    }
}

#[test]
fn pre_hooks_without_block_keep_last_update_and_all_context() {
    let args = obj(vec![("path", "a.txt")]);
    let first = obj(vec![("path", "b.txt")]);
    let second = obj(vec![("path", "c.txt")]);
    let results = vec![
        hook(false, "", Some("one"), Some(first)),
        hook(false, "", None, None),
        hook(false, "", Some("two"), Some(obj(vec![("path", "c.txt")]))),
    ];
    let v = fold_pre_hooks(&results, &args);
    assert_eq!(v.block_reason, None);
    assert_eq!(v.args, second);
    assert_eq!(v.added_context, vec!["one".to_string(), "two".to_string()]);
}

#[test]
fn pre_hooks_stop_at_first_block() {
    let args = obj(vec![("cmd", "ls")]);
    let results = vec![
        hook(false, "", Some("before"), Some(obj(vec![("cmd", "pwd")]))),
        hook(true, "not allowed \n", Some("ignored"), Some(obj(vec![("cmd", "rm")]))),
        hook(true, "second", None, None),
    ];
    let v = fold_pre_hooks(&results, &args);
    assert_eq!(v.block_reason, Some("not allowed".to_string()));
    assert_eq!(v.args, obj(vec![("cmd", "pwd")]));
    assert_eq!(v.added_context, vec!["before".to_string()]);
}

#[test]
fn pre_hooks_empty_leave_args() {
    let args = obj(vec![("x", "y")]);
    let v = fold_pre_hooks(&[], &args);
    assert_eq!(v, HookVerdict { block_reason: None, args: obj(vec![("x", "y")]), added_context: vec![] });
}

#[test]
fn queued_call_steps() {
    assert_eq!(queued_call_step(None, true, true, true), QueuedCallStep::Idle);
    assert_eq!(queued_call_step(Some("bash"), true, false, false), QueuedCallStep::AskResumedPermission);
    assert_eq!(queued_call_step(Some("agent"), false, false, false), QueuedCallStep::LeaveForStep);
    assert_eq!(queued_call_step(Some("use_skill"), false, true, false), QueuedCallStep::LeaveForStep);
    assert_eq!(queued_call_step(Some("use_skill"), false, false, true), QueuedCallStep::Gate);
    assert_eq!(queued_call_step(Some("read_file"), false, false, true), QueuedCallStep::WaitForOrderedSlot);
    assert_eq!(queued_call_step(Some("read_file"), false, false, false), QueuedCallStep::Gate);
    assert_eq!(queued_call_step(Some("bash"), false, true, true), QueuedCallStep::Gate);
}

#[test]
fn unknown_tool_text() {
    assert_eq!(unknown_tool_message("frobnicate"), "unknown tool: frobnicate");
}
