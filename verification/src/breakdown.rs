//! What a provider request is made of: its Skills, instructions, memory, conversation,
//! observations and capabilities, as the request evidence records them.

use vstd::prelude::*;

use crate::events::{same_text, EventPayload, ExecutionScope, RequestScope, StoredEvent, TaskEvent};
use crate::prompt::{CanonicalMessage, Role};
use crate::paths::{has_parent_dir, has_parent_dir_str};
use crate::skill::search::{contains_chars, contains_text};
use crate::task::ledger_facts;
use crate::text::{chars_of, texts};
use crate::types::ProviderUsage;

verus! {

/// A file whose content went into a request, and its content hash.
#[derive(Debug, Clone, PartialEq, Eq)]
pub struct FileSource {
    pub path: String,
    pub hash: String,
}

/// A project instruction file: its kind (`workspace`, `agent` or another), path and hash.
#[derive(Debug, Clone, PartialEq, Eq)]
pub struct InstructionSource {
    pub kind: String,
    pub path: String,
    pub hash: String,
}

/// What the context assembly of a request put together.
#[derive(Debug, PartialEq, Eq)]
pub struct ContextAssembly {
    pub prompt_asset_sources: Vec<FileSource>,
    pub project_instruction_sources: Vec<InstructionSource>,
    pub memory_sources: Vec<FileSource>,
    pub tool_names: Vec<String>,
    pub history: Vec<CanonicalMessage>,
    pub has_handoff_summary: bool,
}

/// Who provides a source.
#[derive(Debug, Clone, Copy, PartialEq, Eq, Structural)]
pub enum SourceScope {
    System,
    Project,
    User,
}

/// A source as the evidence names it: who provides it, its id, and its path when that
/// path is relative to the workspace.
#[derive(Debug, Clone, PartialEq, Eq)]
pub struct SourceFact {
    pub scope: SourceScope,
    pub id: String,
    pub relative_path: Option<String>,
}

/// The workspace-relative path that `path` is, if any: a path that is not empty, not
/// absolute, and has no `..` piece, taken as it is.
pub open spec fn workspace_relative(path: Seq<char>) -> Option<Seq<char>> {
    if path.len() > 0 && path[0] != '/' && !has_parent_dir(path) {
        Some(path)
    } else {
        None
    }
}

/// The text of an optional string.
pub open spec fn opt_seq(o: Option<String>) -> Option<Seq<char>> {
    match o {
        Some(s) => Some(s@),
        None => None,
    }
}

/// The workspace-relative path that `path` is, if any.
pub fn parse_workspace_relative(path: &str) -> (r: Option<String>)
    ensures
        opt_seq(r) == workspace_relative(path@),
{
    let c = chars_of(path);
    if c.len() > 0 && c[0] != '/' && !has_parent_dir_str(path) {
        Some(path.to_string())
    } else {
        None
    }
}

/// The kind of an instruction.
#[derive(Debug, Clone, Copy, PartialEq, Eq, Structural)]
pub enum InstructionKind {
    System,
    Workspace,
    Agent,
    Project,
}

/// An instruction that went into a request.
#[derive(Debug, Clone, PartialEq, Eq)]
pub struct InstructionFact {
    pub kind: InstructionKind,
    pub source: SourceFact,
    pub content_hash: String,
}

/// The kind of a memory file.
#[derive(Debug, Clone, Copy, PartialEq, Eq, Structural)]
pub enum MemoryKind {
    Global,
    Project,
}

/// A memory file that went into a request.
#[derive(Debug, Clone, PartialEq, Eq)]
pub struct MemoryFact {
    pub kind: MemoryKind,
    pub source: SourceFact,
    pub content_hash: String,
}

/// A Skill that is loaded in the request's execution.
#[derive(Debug, Clone, PartialEq, Eq)]
pub struct SkillContextFact {
    pub skill_id: String,
    pub source: String,
    pub origin: String,
    pub content_hash: String,
}

/// A capability that the request's tools give the model.
#[derive(Debug, Clone, Copy, PartialEq, Eq, Structural)]
pub enum CapabilityKind {
    FileRead,
    FileWrite,
    CommandExecution,
    NetworkAccess,
    AgentDelegation,
    SkillDiscovery,
    Memory,
}

/// What the request carries of the conversation.
#[derive(Debug, Clone, Copy, PartialEq, Eq, Structural)]
pub struct ConversationFact {
    pub retained_turns: u64,
    pub handoff_boundaries: u64,
    pub history_summarized: bool,
}

/// The composition of a provider request.
#[derive(Debug, PartialEq, Eq)]
pub struct ContextBreakdown {
    pub skills: Vec<SkillContextFact>,
    pub instructions: Vec<InstructionFact>,
    pub memory: Vec<MemoryFact>,
    pub conversation: ConversationFact,
    pub observations: Vec<String>,
    pub capabilities: Vec<CapabilityKind>,
    pub token_estimate: Option<u64>,
}

/// Whether two executions are the same.
pub open spec fn same_execution(a: ExecutionScope, b: ExecutionScope) -> bool {
    a.task_id@ == b.task_id@ && a.workspace_id@ == b.workspace_id@ && a.run_id@ == b.run_id@
        && a.turn_index == b.turn_index
}

/// Whether two requests are the same.
pub open spec fn same_request(a: RequestScope, b: RequestScope) -> bool {
    same_execution(a.execution, b.execution) && a.request_id@ == b.request_id@
}

/// A Skill fact as text: id, source, origin and content hash.
pub type SkillFactView = (Seq<char>, Seq<char>, Seq<char>, Seq<char>);

/// The value of a Skill fact.
pub open spec fn skill_fact_view(f: SkillContextFact) -> SkillFactView {
    (f.skill_id@, f.source@, f.origin@, f.content_hash@)
}

/// Whether some fact of `v` is about the Skill `id`.
pub open spec fn has_skill(v: Seq<SkillFactView>, id: Seq<char>) -> bool {
    exists|i: int| 0 <= i < v.len() && (#[trigger] v[i]).0 == id
}

/// The Skills loaded in execution `exec`: the first load of each, in ledger order.
pub open spec fn skill_context(facts: Seq<TaskEvent>, exec: ExecutionScope) -> Seq<SkillFactView>
    decreases facts.len(),
{
    if facts.len() == 0 {
        Seq::empty()
    } else {
        let prev = skill_context(facts.drop_last(), exec);
        match facts.last() {
            TaskEvent::SkillLoaded(s) => if same_execution(s.execution, exec) && !has_skill(
                prev,
                s.skill_id@,
            ) {
                prev.push((s.skill_id@, s.source@, s.origin@, s.content_hash@))
            } else {
                prev
            },
            _ => prev,
        }
    }
}

/// The observations recorded for request `scope`, in ledger order.
pub open spec fn observations_of(facts: Seq<TaskEvent>, scope: RequestScope) -> Seq<Seq<char>>
    decreases facts.len(),
{
    if facts.len() == 0 {
        Seq::empty()
    } else {
        let prev = observations_of(facts.drop_last(), scope);
        match facts.last() {
            TaskEvent::ObservationRecorded { scope: s, observation } => if same_request(s, scope) {
                prev.push(observation@)
            } else {
                prev
            },
            _ => prev,
        }
    }
}

/// The id under which a source is named: its prefix, `:` and its content hash.
pub open spec fn source_id_text(prefix: Seq<char>, hash: Seq<char>) -> Seq<char> {
    prefix + seq![':'] + hash
}

/// The kind of a project instruction file of the given kind name.
pub open spec fn instruction_kind_of(kind: Seq<char>) -> InstructionKind {
    if kind == "workspace"@ {
        InstructionKind::Workspace
    } else if kind == "agent"@ {
        InstructionKind::Agent
    } else {
        InstructionKind::Project
    }
}

/// An instruction fact as values: kind, scope, source id, relative path and content hash.
pub type InstructionView = (InstructionKind, SourceScope, Seq<char>, Option<Seq<char>>, Seq<char>);

/// The value of an instruction fact.
pub open spec fn instruction_view(f: InstructionFact) -> InstructionView {
    (f.kind, f.source.scope, f.source.id@, opt_seq(f.source.relative_path), f.content_hash@)
}

/// The instructions of a request: the prompt assets (system), then the project files.
pub open spec fn instructions_of(prompt: Seq<FileSource>, project: Seq<InstructionSource>) -> Seq<
    InstructionView,
> {
    prompt.map_values(
        |s: FileSource|
            (
                InstructionKind::System,
                SourceScope::System,
                source_id_text("prompt"@, s.hash@),
                workspace_relative(s.path@),
                s.hash@,
            ),
    ) + project.map_values(
        |s: InstructionSource|
            (
                instruction_kind_of(s.kind@),
                SourceScope::Project,
                source_id_text("instruction"@, s.hash@),
                workspace_relative(s.path@),
                s.hash@,
            ),
    )
}

/// A memory fact as values: kind, scope, source id, relative path and content hash.
pub type MemoryView = (MemoryKind, SourceScope, Seq<char>, Option<Seq<char>>, Seq<char>);

/// The value of a memory fact.
pub open spec fn memory_view(f: MemoryFact) -> MemoryView {
    (f.kind, f.source.scope, f.source.id@, opt_seq(f.source.relative_path), f.content_hash@)
}

/// The memory of a request: a file whose path mentions `global` is the user's global
/// memory, any other is the project's.
pub open spec fn memory_of(sources: Seq<FileSource>) -> Seq<MemoryView> {
    sources.map_values(
        |s: FileSource|
            if contains_text(s.path@, "global"@) {
                (
                    MemoryKind::Global,
                    SourceScope::User,
                    source_id_text("memory"@, s.hash@),
                    workspace_relative(s.path@),
                    s.hash@,
                )
            } else {
                (
                    MemoryKind::Project,
                    SourceScope::Project,
                    source_id_text("memory"@, s.hash@),
                    workspace_relative(s.path@),
                    s.hash@,
                )
            },
    )
}

/// `seq![k]` when `on`, else nothing.
pub open spec fn when(on: bool, k: CapabilityKind) -> Seq<CapabilityKind> {
    if on {
        seq![k]
    } else {
        Seq::empty()
    }
}

/// The capabilities that tools of the given names (and memory, when there is some) give,
/// in a fixed order.
pub open spec fn capabilities_of(names: Seq<Seq<char>>, has_memory: bool) -> Seq<CapabilityKind> {
    when(
        names.contains("read_file"@) || names.contains("find_files"@) || names.contains("search_text"@),
        CapabilityKind::FileRead,
    ) + when(names.contains("write_file"@) || names.contains("edit_file"@), CapabilityKind::FileWrite)
        + when(names.contains("run_command"@), CapabilityKind::CommandExecution) + when(
        names.contains("fetch_web"@),
        CapabilityKind::NetworkAccess,
    ) + when(names.contains("agent"@), CapabilityKind::AgentDelegation) + when(
        names.contains("use_skill"@) || names.contains("search_skills"@),
        CapabilityKind::SkillDiscovery,
    ) + when(has_memory, CapabilityKind::Memory)
}

/// The number of user messages in `history`.
pub open spec fn user_messages(history: Seq<CanonicalMessage>) -> nat
    decreases history.len(),
{
    if history.len() == 0 {
        0
    } else {
        user_messages(history.drop_last()) + if history.last().role == Role::User {
            1nat
        } else {
            0nat
        }
    }
}

proof fn lemma_user_messages_bound(history: Seq<CanonicalMessage>)
    ensures
        user_messages(history) <= history.len(),
    decreases history.len(),
{
    if history.len() > 0 {
        lemma_user_messages_bound(history.drop_last());
    }
}

/// The id under which a source is named: `prefix:hash`.
pub fn source_id(prefix: &str, hash: &str) -> (r: String)
    ensures
        r@ == source_id_text(prefix@, hash@),
{
    let mut r = String::from_str(prefix);
    r.append(":");
    proof {
        reveal_strlit(":");
    }
    r.append(hash);
    r
}

/// The kind of a project instruction file of the given kind name.
pub fn instruction_kind(kind: &str) -> (k: InstructionKind)
    ensures
        k == instruction_kind_of(kind@),
{
    if same_text(kind, "workspace") {
        InstructionKind::Workspace
    } else if same_text(kind, "agent") {
        InstructionKind::Agent
    } else {
        InstructionKind::Project
    }
}

fn has_name(names: &[String], name: &str) -> (b: bool)
    ensures
        b == texts(names@).contains(name@),
{
    let mut i: usize = 0;
    while i < names.len()
        invariant
            i <= names@.len(),
            forall|k: int| 0 <= k < i ==> (#[trigger] names@[k])@ != name@,
        decreases names@.len() - i,
    {
        if same_text(names[i].as_str(), name) {
            proof {
                assert(texts(names@)[i as int] == name@);
            }
            return true;
        }
        i = i + 1;
    }
    proof {
        if texts(names@).contains(name@) {
            let k = choose|k: int| 0 <= k < texts(names@).len() && texts(names@)[k] == name@;
            assert(names@[k]@ == name@);
        }
    }
    false
}

fn push_when(v: &mut Vec<CapabilityKind>, on: bool, k: CapabilityKind)
    ensures
        final(v)@ == old(v)@ + when(on, k),
{
    if on {
        v.push(k);
        proof {
            assert(old(v)@ + seq![k] =~= old(v)@.push(k));
        }
    } else {
        proof {
            assert(old(v)@ + Seq::<CapabilityKind>::empty() =~= old(v)@);
        }
    }
}

/// The capabilities that the tools (and memory, when there is some) give.
pub fn capabilities_for(tool_names: &[String], has_memory: bool) -> (r: Vec<CapabilityKind>)
    ensures
        r@ == capabilities_of(texts(tool_names@), has_memory),
{
    let mut r: Vec<CapabilityKind> = Vec::new();
    let read = has_name(tool_names, "read_file") || has_name(tool_names, "find_files") || has_name(
        tool_names,
        "search_text",
    );
    push_when(&mut r, read, CapabilityKind::FileRead);
    let write = has_name(tool_names, "write_file") || has_name(tool_names, "edit_file");
    push_when(&mut r, write, CapabilityKind::FileWrite);
    let run = has_name(tool_names, "run_command");
    push_when(&mut r, run, CapabilityKind::CommandExecution);
    let web = has_name(tool_names, "fetch_web");
    push_when(&mut r, web, CapabilityKind::NetworkAccess);
    let agent = has_name(tool_names, "agent");
    push_when(&mut r, agent, CapabilityKind::AgentDelegation);
    let skills = has_name(tool_names, "use_skill") || has_name(tool_names, "search_skills");
    push_when(&mut r, skills, CapabilityKind::SkillDiscovery);
    push_when(&mut r, has_memory, CapabilityKind::Memory);
    proof {
        assert(r@ =~= capabilities_of(texts(tool_names@), has_memory));
    }
    r
}

fn same_execution_exec(a: &ExecutionScope, b: &ExecutionScope) -> (r: bool)
    ensures
        r == same_execution(*a, *b),
{
    same_text(a.task_id.as_str(), b.task_id.as_str()) && same_text(
        a.workspace_id.as_str(),
        b.workspace_id.as_str(),
    ) && same_text(a.run_id.as_str(), b.run_id.as_str()) && a.turn_index == b.turn_index
}

fn same_request_exec(a: &RequestScope, b: &RequestScope) -> (r: bool)
    ensures
        r == same_request(*a, *b),
{
    same_execution_exec(&a.execution, &b.execution) && same_text(
        a.request_id.as_str(),
        b.request_id.as_str(),
    )
}

/// The values of some Skill facts.
pub open spec fn skill_views(v: Seq<SkillContextFact>) -> Seq<SkillFactView> {
    v.map_values(|f: SkillContextFact| skill_fact_view(f))
}

fn knows_skill(v: &Vec<SkillContextFact>, id: &str) -> (b: bool)
    ensures
        b == has_skill(skill_views(v@), id@),
{
    let mut i: usize = 0;
    while i < v.len()
        invariant
            i <= v@.len(),
            forall|k: int| 0 <= k < i ==> (#[trigger] v@[k]).skill_id@ != id@,
        decreases v@.len() - i,
    {
        if same_text(v[i].skill_id.as_str(), id) {
            proof {
                assert(skill_views(v@)[i as int].0 == id@);
            }
            return true;
        }
        i = i + 1;
    }
    proof {
        if has_skill(skill_views(v@), id@) {
            let k = choose|k: int| 0 <= k < skill_views(v@).len() && skill_views(v@)[k].0 == id@;
            assert(v@[k].skill_id@ == id@);
        }
    }
    false
}

/// What the ledger facts of the log give for execution `exec` and request `scope`: the
/// Skills loaded in the execution and the observations of the request.
fn ledger_context(events: &[StoredEvent], scope: &RequestScope) -> (r: (
    Vec<SkillContextFact>,
    Vec<String>,
))
    ensures
        skill_views(r.0@) == skill_context(ledger_facts(events@), scope.execution),
        texts(r.1@) == observations_of(ledger_facts(events@), *scope),
{
    let mut skills: Vec<SkillContextFact> = Vec::new();
    let mut observations: Vec<String> = Vec::new();
    let mut i: usize = 0;
    while i < events.len()
        invariant
            i <= events@.len(),
            skill_views(skills@) == skill_context(
                ledger_facts(events@.subrange(0, i as int)),
                scope.execution,
            ),
            texts(observations@) == observations_of(ledger_facts(events@.subrange(0, i as int)), *scope),
        decreases events@.len() - i,
    {
        let ghost before = ledger_facts(events@.subrange(0, i as int));
        proof {
            assert(events@.subrange(0, i + 1).drop_last() =~= events@.subrange(0, i as int));
        }
        if let EventPayload::TaskLedger { facts, .. } = &events[i].payload {
            let mut j: usize = 0;
            while j < facts.len()
                invariant
                    j <= facts@.len(),
                    skill_views(skills@) == skill_context(
                        before + facts@.subrange(0, j as int),
                        scope.execution,
                    ),
                    texts(observations@) == observations_of(before + facts@.subrange(0, j as int), *scope),
                decreases facts@.len() - j,
            {
                let ghost whole = before + facts@.subrange(0, j + 1);
                proof {
                    assert(whole.drop_last() =~= before + facts@.subrange(0, j as int));
                    assert(whole.last() == facts@[j as int]);
                }
                match &facts[j] {
                    TaskEvent::SkillLoaded(s) => {
                        if same_execution_exec(&s.execution, &scope.execution) && !knows_skill(
                            &skills,
                            s.skill_id.as_str(),
                        ) {
                            let ghost prev = skills@;
                            skills.push(
                                SkillContextFact {
                                    skill_id: s.skill_id.clone(),
                                    source: s.source.clone(),
                                    origin: s.origin.clone(),
                                    content_hash: s.content_hash.clone(),
                                },
                            );
                            proof {
                                assert(skill_views(skills@) =~= skill_views(prev).push(
                                    skill_fact_view(skills@.last()),
                                )) by {
                                    assert(skills@.drop_last() =~= prev);
                                }
                            }
                        }
                    },
                    TaskEvent::ObservationRecorded { scope: s, observation } => {
                        if same_request_exec(s, scope) {
                            let ghost prev = observations@;
                            observations.push(observation.clone());
                            proof {
                                assert(texts(observations@) =~= texts(prev).push(observation@));
                            }
                        }
                    },
                    _ => {},
                }
                j = j + 1;
            }
            proof {
                assert(facts@.subrange(0, facts@.len() as int) =~= facts@);
            }
        } else {
            proof {
                assert(before + Seq::<TaskEvent>::empty() =~= before);
            }
        }
        i = i + 1;
    }
    proof {
        assert(events@.subrange(0, events@.len() as int) =~= events@);
    }
    (skills, observations)
}

/// The values of some instruction facts.
pub open spec fn instruction_views(v: Seq<InstructionFact>) -> Seq<InstructionView> {
    v.map_values(|f: InstructionFact| instruction_view(f))
}

/// The values of some memory facts.
pub open spec fn memory_views(v: Seq<MemoryFact>) -> Seq<MemoryView> {
    v.map_values(|f: MemoryFact| memory_view(f))
}

fn instructions_for(prompt: &[FileSource], project: &[InstructionSource]) -> (r: Vec<InstructionFact>)
    ensures
        instruction_views(r@) == instructions_of(prompt@, project@),
{
    let mut r: Vec<InstructionFact> = Vec::new();
    let mut i: usize = 0;
    while i < prompt.len()
        invariant
            i <= prompt@.len(),
            r@.len() == i,
            forall|k: int|
                0 <= k < i ==> instruction_view(#[trigger] r@[k]) == (
                InstructionKind::System,
                SourceScope::System,
                source_id_text("prompt"@, prompt@[k].hash@),
                workspace_relative(prompt@[k].path@),
                prompt@[k].hash@,
            ),
        decreases prompt@.len() - i,
    {
        let s = &prompt[i];
        let id = source_id("prompt", s.hash.as_str());
        proof {
            reveal_strlit("prompt");
        }
        r.push(
            InstructionFact {
                kind: InstructionKind::System,
                source: SourceFact {
                    scope: SourceScope::System,
                    id,
                    relative_path: parse_workspace_relative(s.path.as_str()),
                },
                content_hash: s.hash.clone(),
            },
        );
        i = i + 1;
    }
    let base: usize = r.len();
    let mut j: usize = 0;
    while j < project.len()
        invariant
            j <= project@.len(),
            base == prompt@.len(),
            r@.len() == base + j,
            forall|k: int|
                0 <= k < base ==> instruction_view(#[trigger] r@[k]) == (
                InstructionKind::System,
                SourceScope::System,
                source_id_text("prompt"@, prompt@[k].hash@),
                workspace_relative(prompt@[k].path@),
                prompt@[k].hash@,
            ),
            forall|k: int|
                0 <= k < j ==> instruction_view(#[trigger] r@[base + k]) == (
                instruction_kind_of(project@[k].kind@),
                SourceScope::Project,
                source_id_text("instruction"@, project@[k].hash@),
                workspace_relative(project@[k].path@),
                project@[k].hash@,
            ),
        decreases project@.len() - j,
    {
        let s = &project[j];
        let id = source_id("instruction", s.hash.as_str());
        proof {
            reveal_strlit("instruction");
        }
        let kind = instruction_kind(s.kind.as_str());
        r.push(
            InstructionFact {
                kind,
                source: SourceFact {
                    scope: SourceScope::Project,
                    id,
                    relative_path: parse_workspace_relative(s.path.as_str()),
                },
                content_hash: s.hash.clone(),
            },
        );
        proof {
            assert(r@[base + j] == r@.last());
        }
        j = j + 1;
    }
    proof {
        let want = instructions_of(prompt@, project@);
        assert forall|k: int| 0 <= k < r@.len() implies #[trigger] instruction_views(r@)[k] == want[k] by {
            if k >= base {
                assert(r@[base + (k - base)] == r@[k]);
            }
        }
        assert(instruction_views(r@) =~= want);
    }
    r
}

fn memory_for(sources: &[FileSource]) -> (r: Vec<MemoryFact>)
    ensures
        memory_views(r@) == memory_of(sources@),
{
    let needle: Vec<char> = vec!['g', 'l', 'o', 'b', 'a', 'l'];
    proof {
        reveal_strlit("global");
        assert(needle@ =~= "global"@);
        reveal_strlit("memory");
    }
    let mut r: Vec<MemoryFact> = Vec::new();
    let mut i: usize = 0;
    while i < sources.len()
        invariant
            i <= sources@.len(),
            needle@ == "global"@,
            r@.len() == i,
            forall|k: int| 0 <= k < i ==> memory_view(#[trigger] r@[k]) == memory_of(sources@)[k],
        decreases sources@.len() - i,
    {
        let s = &sources[i];
        let path = chars_of(s.path.as_str());
        let global = contains_chars(&path, &needle);
        let id = source_id("memory", s.hash.as_str());
        let (kind, scope) = if global {
            (MemoryKind::Global, SourceScope::User)
        } else {
            (MemoryKind::Project, SourceScope::Project)
        };
        let relative_path = parse_workspace_relative(s.path.as_str());
        r.push(
            MemoryFact { kind, source: SourceFact { scope, id, relative_path }, content_hash: s.hash.clone() },
        );
        i = i + 1;
    }
    proof {
        assert(memory_views(r@) =~= memory_of(sources@));
    }
    r
}

/// The number of user messages in `history`.
pub fn retained_turns(history: &[CanonicalMessage]) -> (n: u64)
    ensures
        n == user_messages(history@),
{
    let mut n: u64 = 0;
    let mut i: usize = 0;
    while i < history.len()
        invariant
            i <= history@.len(),
            n == user_messages(history@.subrange(0, i as int)),
            n <= i,
        decreases history@.len() - i,
    {
        proof {
            assert(history@.subrange(0, i + 1).drop_last() =~= history@.subrange(0, i as int));
        }
        if history[i].role == Role::User {
            n = n + 1;
        }
        i = i + 1;
    }
    proof {
        assert(history@.subrange(0, history@.len() as int) =~= history@);
    }
    n
}

/// The composition of request `scope`: the Skills loaded in its execution (the first load
/// of each), the prompt and project instructions, the memory files, how much of the
/// conversation it retains, its observations, the capabilities of its tools, and the
/// token estimate.
pub fn request_breakdown_from_assembly(
    assembly: &ContextAssembly,
    events: &[StoredEvent],
    scope: &RequestScope,
    estimated_input: Option<u32>,
) -> (b: ContextBreakdown)
    ensures
        skill_views(b.skills@) == skill_context(ledger_facts(events@), scope.execution),
        texts(b.observations@) == observations_of(ledger_facts(events@), *scope),
        instruction_views(b.instructions@) == instructions_of(
            assembly.prompt_asset_sources@,
            assembly.project_instruction_sources@,
        ),
        memory_views(b.memory@) == memory_of(assembly.memory_sources@),
        b.capabilities@ == capabilities_of(
            texts(assembly.tool_names@),
            assembly.memory_sources@.len() > 0,
        ),
        b.conversation.retained_turns == user_messages(assembly.history@),
        b.conversation.handoff_boundaries == if assembly.has_handoff_summary {
            1u64
        } else {
            0u64
        },
        b.conversation.history_summarized == assembly.has_handoff_summary,
        b.token_estimate == match estimated_input {
            Some(n) => Some(n as u64),
            None => None::<u64>,
        },
{
    let (skills, observations) = ledger_context(events, scope);
    let instructions = instructions_for(
        assembly.prompt_asset_sources.as_slice(),
        assembly.project_instruction_sources.as_slice(),
    );
    let memory = memory_for(assembly.memory_sources.as_slice());
    let capabilities = capabilities_for(
        assembly.tool_names.as_slice(),
        assembly.memory_sources.len() > 0,
    );
    let retained = retained_turns(assembly.history.as_slice());
    let token_estimate: Option<u64> = match estimated_input {
        Some(n) => Some(n as u64),
        None => None,
    };
    ContextBreakdown {
        skills,
        instructions,
        memory,
        conversation: ConversationFact {
            retained_turns: retained,
            handoff_boundaries: if assembly.has_handoff_summary {
                1
            } else {
                0
            },
            history_summarized: assembly.has_handoff_summary,
        },
        observations,
        capabilities,
        token_estimate,
    }
}

/// The largest integer that a JSON number holds exactly in every reader (2^53 - 1).
pub const JSON_SAFE_INTEGER_MAX: u64 = 9_007_199_254_740_991;

/// Token counts of a request, as the evidence records them.
#[derive(Debug, Clone, Copy, PartialEq, Eq, Structural)]
pub struct UsageFact {
    pub input_tokens: Option<u64>,
    pub output_tokens: Option<u64>,
    pub cached_input_tokens: Option<u64>,
    pub cache_creation_input_tokens: Option<u64>,
}

/// A count, kept only when JSON readers hold it exactly.
pub open spec fn safe_count(value: Option<u64>) -> Option<u64> {
    match value {
        Some(v) => if v <= JSON_SAFE_INTEGER_MAX {
            Some(v)
        } else {
            None
        },
        None => None,
    }
}

/// A count, kept only when JSON readers hold it exactly.
pub fn json_safe(value: Option<u64>) -> (r: Option<u64>)
    ensures
        r == safe_count(value),
{
    match value {
        Some(v) => if v <= JSON_SAFE_INTEGER_MAX {
            Some(v)
        } else {
            None
        },
        None => None,
    }
}

/// The usage that a request's evidence records: each count of the provider's report
/// that JSON readers hold exactly; nothing without a report.
pub fn normalized_usage(usage: Option<&ProviderUsage>) -> (r: UsageFact)
    ensures
        r == (match usage {
            Some(u) => UsageFact {
                input_tokens: safe_count(u.input_tokens),
                output_tokens: safe_count(u.output_tokens),
                cached_input_tokens: safe_count(u.cache_read_input_tokens),
                cache_creation_input_tokens: safe_count(u.cache_creation_input_tokens),
            },
            None => UsageFact {
                input_tokens: None,
                output_tokens: None,
                cached_input_tokens: None,
                cache_creation_input_tokens: None,
            },
        }),
{
    match usage {
        Some(u) => UsageFact {
            input_tokens: json_safe(u.input_tokens),
            output_tokens: json_safe(u.output_tokens),
            cached_input_tokens: json_safe(u.cache_read_input_tokens),
            cache_creation_input_tokens: json_safe(u.cache_creation_input_tokens),
        },
        None => UsageFact {
            input_tokens: None,
            output_tokens: None,
            cached_input_tokens: None,
            cache_creation_input_tokens: None,
        },
    }
}

} // verus!
