use kuku::agent_slot::{agent_slot_step, AgentSlotAction, ChildReport};
use kuku::inline_tools::{clamp_result, skills_returned_summary, unknown_inline_tool_result, use_skill_result, ToolResult};
use kuku::json::{JsonNumber, JsonValue};
use kuku::skill::definition::{SkillDefinition, SkillSource};
use kuku::skill::registry::SkillRegistry;
use kuku::types::{PermissionRequest, RunOutput, ToolEvent, UiEvent};

fn registry() -> SkillRegistry {
    SkillRegistry::builder()
        .with_definition(SkillDefinition {
            name: "tdd".into(),
            description: "Write tests first".into(),
            instructions: "Red, green, refactor.".into(),
            source: SkillSource::KukuUser,
            hash: String::new(),
            source_path: Some("/skills/tdd".into()),
            allowed_tools: None,
            disallowed_tools: None,
            max_turns: None,
            model: None,
            license: None,
            compatibility: None,
            metadata: JsonValue::Null,
        })
        .build()
}

fn args(name: &str) -> JsonValue {
    JsonValue::Object(vec![("skill_name".into(), JsonValue::String(name.into()))])
}

#[test]
fn use_skill_loads_the_named_skill() {
    let reg = registry();
    let r = use_skill_result(Some(&reg), &args("tdd"));
    assert_eq!(r.status, "ok");
    assert_eq!(r.summary, "loaded skill: tdd");
    assert_eq!(r.model_content, "<!-- loaded: /skills/tdd -->\n\nRed, green, refactor.");
    assert!(!r.truncated);
    assert_eq!(
        r.structured,
        Some(JsonValue::Object(vec![
            ("kind".into(), JsonValue::String("skill_load".into())),
            ("name".into(), JsonValue::String("tdd".into())),
            ("description".into(), JsonValue::String("Write tests first".into())),
            ("source".into(), JsonValue::String("kuku:user".into())),
            ("loaded".into(), JsonValue::Bool(true)),
        ]))
    );
}

#[test]
fn use_skill_reports_a_missing_skill() {
    let reg = registry();
    let r = use_skill_result(Some(&reg), &args("gone"));
    assert_eq!(r.status, "error");
    assert_eq!(r.summary, "skill 'gone' not found");
    assert_eq!(r.model_content, "no skill named 'gone' in the registry");
    assert_eq!(r.structured, None);
    let none = use_skill_result(None, &args("tdd"));
    assert_eq!(none.summary, "skill 'tdd' not found");
}

#[test]
fn inline_results_are_cut_to_the_tool_limit() {
    let r = ToolResult {
        status: "ok".into(),
        summary: "s".into(),
        model_content: "héllo world".into(),
        truncated: false,
        structured: None,
    };
    let cut = clamp_result(r, Some(5));
    assert_eq!(cut.model_content, "héllo");
    assert!(cut.truncated);
    let whole = clamp_result(
        ToolResult { status: "ok".into(), summary: "s".into(), model_content: "abc".into(), truncated: false, structured: None },
        None,
    );
    assert_eq!(whole.model_content, "abc");
    assert!(!whole.truncated);
    let unknown = unknown_inline_tool_result("use_skill");
    assert_eq!(unknown.summary, "failed: unknown tool: use_skill");
    assert_eq!(unknown.model_content, "unknown tool: use_skill");
    assert_eq!(skills_returned_summary(3, false), "3 skills returned");
    assert_eq!(skills_returned_summary(1, true), "1 skill matches returned");
}

fn output(turn: u64) -> RunOutput {
    RunOutput::new("child".into(), "done".into(), None, turn)
}

#[test]
fn agent_slot_finishes_with_the_child_outcome() {
    match agent_slot_step("helper", "child_1", ChildReport::Event(UiEvent::Done { output: output(3), usage: None, turn: 3 })) {
        AgentSlotAction::Finish(d) => {
            assert_eq!(d.status, "ok");
            assert_eq!(d.summary, "helper completed in 3 turns");
            assert_eq!(d.model_content, "");
            assert_eq!(
                d.result,
                Some(JsonValue::Object(vec![
                    ("kind".into(), JsonValue::String("subagent_result".into())),
                    ("child_session_id".into(), JsonValue::String("child_1".into())),
                    ("turns_completed".into(), JsonValue::Number(JsonNumber::Unsigned(3))),
                ]))
            );
        }
        other => panic!("unexpected {other:?}"),
    }
    match agent_slot_step("helper", "child_1", ChildReport::StartFailed) {
        AgentSlotAction::Finish(d) => {
            assert_eq!(d.status, "error");
            assert_eq!(d.summary, "helper: failed to start child session");
        }
        other => panic!("unexpected {other:?}"),
    }
    match agent_slot_step("helper", "child_1", ChildReport::Cancelled) {
        AgentSlotAction::Finish(d) => assert_eq!((d.status.as_str(), d.summary.as_str()), ("cancelled", "helper cancelled")),
        other => panic!("unexpected {other:?}"),
    }
    match agent_slot_step("helper", "child_1", ChildReport::Ended) {
        AgentSlotAction::Finish(d) => assert_eq!(d.summary, "helper: stream ended unexpectedly"),
        other => panic!("unexpected {other:?}"),
    }
}

#[test]
fn agent_slot_forwards_child_events() {
    assert_eq!(
        agent_slot_step("helper", "c", ChildReport::Event(UiEvent::TextDelta { text: "hi".into() })),
        AgentSlotAction::Forward(ToolEvent::TextDelta { text: "hi".into() })
    );
    assert_eq!(agent_slot_step("helper", "c", ChildReport::Event(UiEvent::TurnStart { turn: 1 })), AgentSlotAction::Skip);
    let request = PermissionRequest {
        id: "r".into(),
        tool_call_id: "t".into(),
        tool: "write".into(),
        risk: "x".into(),
        summary: "s".into(),
        candidate: "c".into(),
        source: "default_ask".into(),
    };
    assert_eq!(
        agent_slot_step("helper", "c", ChildReport::Event(UiEvent::PermissionRequested { request: request.clone() })),
        AgentSlotAction::AskPermission(request)
    );
}
