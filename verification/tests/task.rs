use kuku::breakdown::{
    capabilities_for, instruction_kind, json_safe, parse_workspace_relative, normalized_usage, request_breakdown_from_assembly,
    retained_turns, source_id, CapabilityKind, ContextAssembly, FileSource, InstructionKind,
    InstructionSource, MemoryKind, SourceScope, JSON_SAFE_INTEGER_MAX,
};
use kuku::error::Error;
use kuku::events::{
    EventPayload, ExecutionScope, LedgerRecordKind, RequestScope, RunRef, SkillLoaded, StoredEvent,
    TaskEvent,
};
use kuku::prompt::{CanonicalMessage, MessageBlock};
use kuku::task::{resumed_previous_request_id, validate_task_ledger};
use kuku::types::ProviderUsage;

fn scope(turn: u64) -> ExecutionScope {
    ExecutionScope {
        task_id: "task-1".into(),
        workspace_id: "ws-1".into(),
        run_id: "run-1".into(),
        turn_index: turn,
    }
}

fn run(id: &str) -> RunRef {
    RunRef { task_id: "task-1".into(), run_id: id.into() }
}

fn ledger(id: u64, record: LedgerRecordKind, facts: Vec<TaskEvent>) -> StoredEvent {
    StoredEvent { id, payload: EventPayload::TaskLedger { record, facts } }
}

fn created() -> TaskEvent {
    TaskEvent::TaskCreated { task_id: "task-1".into(), workspace_id: "ws-1".into() }
}

fn started(turn: u64, request_id: &str) -> TaskEvent {
    TaskEvent::RequestStarted { scope: RequestScope { execution: scope(turn), request_id: request_id.into() } }
}

#[test]
fn task_ledger_with_matching_task_and_active_run_is_accepted() {
    let events = vec![
        ledger(1, LedgerRecordKind::Control, vec![created(), TaskEvent::RunStarted { run: run("run-1") }]),
        ledger(2, LedgerRecordKind::Activity, vec![started(1, "req-1")]),
    ];
    assert_eq!(validate_task_ledger(&events, &scope(1)), Ok(()));
}

#[test]
fn task_ledger_errors_name_the_problem() {
    let legacy = vec![StoredEvent { id: 1, payload: EventPayload::SessionCreated { session_id: "s".into() } }];
    assert_eq!(
        validate_task_ledger(&legacy, &scope(1)),
        Err(Error::InvalidEventStream("task ledger must not contain legacy session records".into()))
    );
    assert_eq!(
        validate_task_ledger(&[], &scope(1)),
        Err(Error::InvalidTaskContext("task ledger has no TaskCreated fact".into()))
    );
    let other_task = vec![ledger(
        1,
        LedgerRecordKind::Control,
        vec![TaskEvent::TaskCreated { task_id: "task-2".into(), workspace_id: "ws-1".into() }],
    )];
    assert_eq!(
        validate_task_ledger(&other_task, &scope(1)),
        Err(Error::InvalidTaskContext("task ledger identity does not match execution scope".into()))
    );
    let finished = vec![ledger(
        1,
        LedgerRecordKind::Control,
        vec![created(), TaskEvent::RunStarted { run: run("run-1") }, TaskEvent::RunCompleted { run: run("run-1") }],
    )];
    assert_eq!(
        validate_task_ledger(&finished, &scope(1)),
        Err(Error::InvalidTaskContext("task ledger has no active Run".into()))
    );
    let other_run = vec![ledger(
        1,
        LedgerRecordKind::Control,
        vec![created(), TaskEvent::RunQueued { run: run("run-2") }],
    )];
    assert_eq!(
        validate_task_ledger(&other_run, &scope(1)),
        Err(Error::InvalidTaskContext("active Run does not match execution scope".into()))
    );
}

#[test]
fn ending_another_run_keeps_the_active_one() {
    let events = vec![ledger(
        1,
        LedgerRecordKind::Control,
        vec![created(), TaskEvent::RunStarted { run: run("run-1") }, TaskEvent::RunFailed { run: run("run-0") }],
    )];
    assert_eq!(validate_task_ledger(&events, &scope(1)), Ok(()));
}

#[test]
fn previous_request_id_is_the_last_started_in_the_turn() {
    let events = vec![
        ledger(1, LedgerRecordKind::Activity, vec![started(1, "req-1"), started(2, "req-2")]),
        ledger(2, LedgerRecordKind::Activity, vec![started(2, "req-3"), started(3, "req-4")]),
        ledger(3, LedgerRecordKind::Control, vec![started(2, "req-5")]),
    ];
    assert_eq!(resumed_previous_request_id(&events, 2), Some("req-3".to_string()));
    assert_eq!(resumed_previous_request_id(&events, 1), Some("req-1".to_string()));
    assert_eq!(resumed_previous_request_id(&events, 9), None);
}

#[test]
fn capabilities_follow_the_tools_in_a_fixed_order() {
    let names: Vec<String> = vec!["agent".into(), "search_text".into(), "run_command".into()];
    assert_eq!(
        capabilities_for(&names, true),
        vec![
            CapabilityKind::FileRead,
            CapabilityKind::CommandExecution,
            CapabilityKind::AgentDelegation,
            CapabilityKind::Memory
        ]
    );
    assert!(capabilities_for(&[], false).is_empty());
}

#[test]
fn instruction_kinds_and_source_ids() {
    assert_eq!(instruction_kind("workspace"), InstructionKind::Workspace);
    assert_eq!(instruction_kind("agent"), InstructionKind::Agent);
    assert_eq!(instruction_kind("other"), InstructionKind::Project);
    assert_eq!(source_id("memory", "sha256:ab"), "memory:sha256:ab");
}

#[test]
fn request_breakdown_collects_the_request_context() {
    let exec = scope(1);
    let request = RequestScope { execution: exec.clone(), request_id: "req-1".into() };
    let skill = |id: &str, hash: &str| SkillLoaded {
        execution: exec.clone(),
        skill_id: id.into(),
        source: "kuku:project".into(),
        origin: "tool".into(),
        content_hash: hash.into(),
    };
    let events = vec![ledger(
        1,
        LedgerRecordKind::Activity,
        vec![
            TaskEvent::SkillLoaded(skill("tdd", "h1")),
            TaskEvent::SkillLoaded(skill("tdd", "h2")),
            TaskEvent::SkillLoaded(SkillLoaded { execution: scope(2), ..skill("other", "h3") }),
            TaskEvent::ObservationRecorded { scope: request.clone(), observation: "saw it".into() },
        ],
    )];
    let assembly = ContextAssembly {
        prompt_asset_sources: vec![FileSource { path: "prompts/system.md".into(), hash: "p1".into() }],
        project_instruction_sources: vec![InstructionSource {
            kind: "workspace".into(),
            path: "AGENTS.md".into(),
            hash: "i1".into(),
        }],
        memory_sources: vec![
            FileSource { path: "/home/u/.kuku/global/memory.md".into(), hash: "m1".into() },
            FileSource { path: "/home/u/.kuku/p/w/memory.md".into(), hash: "m2".into() },
        ],
        tool_names: vec!["read_file".into(), "use_skill".into()],
        history: vec![
            CanonicalMessage::user_text("one"),
            CanonicalMessage::assistant(vec![MessageBlock::Text("two".into())]),
            CanonicalMessage::user_text("three"),
        ],
        has_handoff_summary: true,
    };
    let b = request_breakdown_from_assembly(&assembly, &events, &request, Some(1200));
    assert_eq!(b.skills.len(), 1);
    assert_eq!(b.skills[0].skill_id, "tdd");
    assert_eq!(b.skills[0].content_hash, "h1");
    assert_eq!(b.observations, vec!["saw it".to_string()]);
    assert_eq!(b.instructions.len(), 2);
    assert_eq!(b.instructions[0].kind, InstructionKind::System);
    assert_eq!(b.instructions[0].source.id, "prompt:p1");
    assert_eq!(b.instructions[1].kind, InstructionKind::Workspace);
    assert_eq!(b.instructions[1].source.scope, SourceScope::Project);
    assert_eq!(b.instructions[1].source.id, "instruction:i1");
    assert_eq!(b.memory[0].kind, MemoryKind::Global);
    assert_eq!(b.memory[0].source.scope, SourceScope::User);
    assert_eq!(b.memory[1].kind, MemoryKind::Project);
    assert_eq!(b.instructions[0].source.relative_path, Some("prompts/system.md".to_string()));
    assert_eq!(b.instructions[1].source.relative_path, Some("AGENTS.md".to_string()));
    assert_eq!(b.memory[0].source.relative_path, None);
    assert_eq!(
        b.capabilities,
        vec![CapabilityKind::FileRead, CapabilityKind::SkillDiscovery, CapabilityKind::Memory]
    );
    assert_eq!(b.conversation.retained_turns, 2);
    assert_eq!(b.conversation.handoff_boundaries, 1);
    assert!(b.conversation.history_summarized);
    assert_eq!(b.token_estimate, Some(1200));
    assert_eq!(retained_turns(&assembly.history), 2);
}

#[test]
fn usage_counts_beyond_json_precision_are_dropped() {
    assert_eq!(json_safe(Some(JSON_SAFE_INTEGER_MAX)), Some(JSON_SAFE_INTEGER_MAX));
    assert_eq!(json_safe(Some(JSON_SAFE_INTEGER_MAX + 1)), None);
    let usage = ProviderUsage {
        input_tokens: Some(10),
        output_tokens: Some(u64::MAX),
        cache_read_input_tokens: None,
        cache_creation_input_tokens: Some(3),
    };
    let fact = normalized_usage(Some(&usage));
    assert_eq!(fact.input_tokens, Some(10));
    assert_eq!(fact.output_tokens, None);
    assert_eq!(fact.cached_input_tokens, None);
    assert_eq!(fact.cache_creation_input_tokens, Some(3));
    assert_eq!(normalized_usage(None).input_tokens, None);
}

#[test]
fn workspace_relative_paths() {
    assert_eq!(parse_workspace_relative("docs/a.md"), Some("docs/a.md".to_string()));
    assert_eq!(parse_workspace_relative("/abs/a.md"), None);
    assert_eq!(parse_workspace_relative("../a.md"), None);
    assert_eq!(parse_workspace_relative("a/../../b"), None);
    assert_eq!(parse_workspace_relative(""), None);
}
