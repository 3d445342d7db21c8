//! Decisions about individual tool calls: which tools are special, how a call is
//! summarised for the host, how permission choices are named, and the run's tally of
//! calls.

use vstd::prelude::*;

use crate::events::{same_text, EventPayload, StoredEvent};
use crate::json::{json_str_field, json_u64_field, JsonValue, JsonView};
use crate::paths::{
    global_memory_path, has_parent_dir, project_home_path, project_memory_path, push_part,
};
use crate::text::{
    chars_of, decimal, string_from_chars, take_chars, trim, trim_chars, trim_str, u64_to_decimal,
};
use crate::types::{PermissionChoice, ToolEvent, UiEvent};

verus! {

/// `text` as Rust's `{:?}` writes a string: in double quotes, with escapes.
pub uninterp spec fn debug_quoted(text: Seq<char>) -> Seq<char>;

/// Whether `c` is printable ASCII other than a double quote or a backslash: `Debug` for
/// `str` writes such a character as it is.
pub open spec fn debug_plain(c: char) -> bool {
    ' ' <= c && c <= '~' && c != '"' && c != '\\'
}

/// Whether every character of `text` is plain printable ASCII.
pub open spec fn all_debug_plain(text: Seq<char>) -> bool {
    forall|i: int| 0 <= i < text.len() ==> debug_plain(#[trigger] text[i])
}

/// What `{:?}` writes for `text`: plain printable ASCII between double quotes; other text
/// as [`debug_quoted`] names it.
pub open spec fn debug_text(text: Seq<char>) -> Seq<char> {
    if all_debug_plain(text) {
        seq!['"'] + text + seq!['"']
    } else {
        debug_quoted(text)
    }
}

/// Writes `text` with `{:?}` (std's `Debug` for `str`): quoted and escaped. The contract
/// names the result, and states it for text made only of plain printable ASCII: the text
/// between double quotes. How other characters are escaped is not stated.
#[verifier::external_body]
fn debug_quote(text: &str) -> (r: String)
    ensures
        r@ == debug_quoted(text@),
        all_debug_plain(text@) ==> r@ == seq!['"'] + text@ + seq!['"'],
{
    format!("{:?}", text)
}

/// Whether a tool is one of the Skill tools that run inline.
pub fn is_inline_skill_tool(name: &str) -> (b: bool)
    ensures
        b == (name@ == "list_skills"@ || name@ == "search_skills"@ || name@ == "use_skill"@),
{
    same_text(name, "list_skills") || same_text(name, "search_skills") || same_text(
        name,
        "use_skill",
    )
}

/// Whether a tool touches files and must run in order with the other file tools.
pub fn requires_ordered_simple_execution(tool_name: &str) -> (b: bool)
    ensures
        b == (tool_name@ == "read_file"@ || tool_name@ == "edit_file"@ || tool_name@
            == "write_file"@),
{
    same_text(tool_name, "read_file") || same_text(tool_name, "edit_file") || same_text(
        tool_name,
        "write_file",
    )
}

/// The scope under which a permission choice is recorded.
pub open spec fn scope_name(choice: PermissionChoice) -> Seq<char> {
    match choice {
        PermissionChoice::Once | PermissionChoice::Deny => "once"@,
        PermissionChoice::Session => "session"@,
        PermissionChoice::Project => "project"@,
    }
}

/// The scope under which a permission choice is recorded.
pub fn permission_scope(choice: PermissionChoice) -> (r: &'static str)
    ensures
        r@ == scope_name(choice),
{
    match choice {
        PermissionChoice::Once | PermissionChoice::Deny => "once",
        PermissionChoice::Session => "session",
        PermissionChoice::Project => "project",
    }
}

/// What decided a permission gate.
#[derive(Debug, Clone, Copy, PartialEq, Eq, Structural)]
pub enum GateSource {
    HardGuard,
    ProjectPolicy,
    SessionGrant,
    TrustPosture,
    Host,
    DefaultAsk,
}

/// The name under which a gate source is recorded.
pub open spec fn gate_source_text(source: GateSource) -> Seq<char> {
    match source {
        GateSource::HardGuard => "hard_guard"@,
        GateSource::ProjectPolicy => "project_policy"@,
        GateSource::SessionGrant => "session_grant"@,
        GateSource::TrustPosture => "trust_posture"@,
        GateSource::Host => "host"@,
        GateSource::DefaultAsk => "default_ask"@,
    }
}

/// The name under which a gate source is recorded.
pub fn gate_source_name(source: GateSource) -> (r: &'static str)
    ensures
        r@ == gate_source_text(source),
{
    match source {
        GateSource::HardGuard => "hard_guard",
        GateSource::ProjectPolicy => "project_policy",
        GateSource::SessionGrant => "session_grant",
        GateSource::TrustPosture => "trust_posture",
        GateSource::Host => "host",
        GateSource::DefaultAsk => "default_ask",
    }
}

/// The choice that an automatic gate decision of `source` stands for: a project policy
/// stands for a project-wide grant, a session grant for a grant for the session, any other
/// source for a one-off grant.
pub open spec fn gate_choice_of(source: GateSource) -> PermissionChoice {
    match source {
        GateSource::ProjectPolicy => PermissionChoice::Project,
        GateSource::SessionGrant => PermissionChoice::Session,
        _ => PermissionChoice::Once,
    }
}

/// The choice that an automatic gate decision stands for.
pub fn gate_choice(source: &GateSource) -> (c: PermissionChoice)
    ensures
        c == gate_choice_of(*source),
{
    match source {
        GateSource::ProjectPolicy => PermissionChoice::Project,
        GateSource::SessionGrant => PermissionChoice::Session,
        _ => PermissionChoice::Once,
    }
}

/// The summary text: `s` trimmed, cut to `max` characters with `...` when longer.
pub open spec fn truncated_summary(s: Seq<char>, max: nat) -> Seq<char> {
    let t = trim(s);
    if t.len() <= max {
        t
    } else {
        t.subrange(0, max as int) + "..."@
    }
}

/// Trims `s` and cuts it to `max` characters, marking a cut with `...`.
pub fn truncate_summary(s: &str, max: usize) -> (r: String)
    ensures
        r@ == truncated_summary(s@, max as nat),
{
    let c = chars_of(s);
    let t = trim_chars(&c);
    if t.len() <= max {
        string_from_chars(&t)
    } else {
        let head = take_chars(&t, max);
        let mut r = string_from_chars(&head);
        r.append("...");
        r
    }
}

/// Cuts `text` to `max_chars` characters; the flag tells whether anything was cut.
pub fn truncate_to_max_chars(text: &str, max_chars: usize) -> (r: (String, bool))
    ensures
        r.1 == (text@.len() > max_chars),
        r.0@ == (if r.1 { text@.subrange(0, max_chars as int) } else { text@ }),
{
    let c = chars_of(text);
    if c.len() <= max_chars {
        (string_from_chars(&c), false)
    } else {
        let head = take_chars(&c, max_chars);
        (string_from_chars(&head), true)
    }
}

/// A string field of the arguments, or a default.
pub open spec fn str_or(args: JsonView, key: Seq<char>, default: Seq<char>) -> Seq<char> {
    match json_str_field(args, key) {
        Some(s) => s,
        None => default,
    }
}

/// An unsigned field of the arguments, or a default.
pub open spec fn u64_or(args: JsonView, key: Seq<char>, default: u64) -> u64 {
    match json_u64_field(args, key) {
        Some(n) => n,
        None => default,
    }
}

/// What a call of `tool` with `args` is shown as, before any cut.
pub open spec fn summary_text(tool: Seq<char>, args: JsonView) -> Seq<char> {
    if tool == "find_files"@ {
        match (json_str_field(args, "path"@), json_str_field(args, "pattern"@)) {
            (Some(p), Some(pat)) => "path: "@ + debug_text(p) + ", pattern: "@ + debug_text(pat),
            (Some(p), None) => "path: "@ + debug_text(p),
            (None, Some(pat)) => "path: \"\", pattern: "@ + debug_text(pat),
            (None, None) => tool,
        }
    } else if tool == "read_file"@ {
        str_or(args, "path"@, tool)
    } else if tool == "edit_file"@ || tool == "write_file"@ || tool == "run_command"@ {
        str_or(args, "brief"@, tool)
    } else if tool == "search_text"@ {
        let pattern = str_or(args, "pattern"@, Seq::empty());
        match json_str_field(args, "path"@) {
            Some(p) => debug_text(pattern) + " in "@ + p,
            None => debug_text(pattern),
        }
    } else if tool == "agent"@ {
        str_or(args, "to"@, "agent"@)
    } else if tool == "use_skill"@ {
        str_or(args, "skill_name"@, "unknown"@)
    } else if tool == "list_skills"@ {
        "offset: "@ + decimal(u64_or(args, "offset"@, 0) as nat) + ", limit: "@ + decimal(
            u64_or(args, "limit"@, 20) as nat,
        )
    } else if tool == "search_skills"@ {
        str_or(args, "query"@, "search skills"@)
    } else if tool == "remember_memory"@ || tool == "forget_memory"@ {
        match json_str_field(args, "text"@) {
            Some(t) => debug_text(t),
            None => tool,
        }
    } else {
        tool
    }
}

/// Whether the call is a `find_files` call with neither a path nor a pattern; it is shown
/// as the bare tool name, never cut.
pub open spec fn bare_find_files(tool: Seq<char>, args: JsonView) -> bool {
    tool == "find_files"@ && json_str_field(args, "path"@) is None && json_str_field(
        args,
        "pattern"@,
    ) is None
}

/// What a call of `tool` with `args` is shown as: cut to `max_len` characters with
/// `...` when longer (a bare `find_files` call is never cut).
pub open spec fn display_summary_text(tool: Seq<char>, args: JsonView, max_len: Option<usize>) -> Seq<
    char,
> {
    let raw = summary_text(tool, args);
    if bare_find_files(tool, args) {
        tool
    } else {
        match max_len {
            Some(max) => if raw.len() > max {
                raw.subrange(0, max as int) + "..."@
            } else {
                raw
            },
            None => raw,
        }
    }
}

fn str_field_or(args: &JsonValue, key: &str, default: &str) -> (r: String)
    ensures
        r@ == str_or(args@, key@, default@),
{
    match args.str_field(key) {
        Some(s) => s.clone(),
        None => String::from_str(default),
    }
}

fn summary_raw(tool: &str, args: &JsonValue) -> (r: String)
    ensures
        r@ == summary_text(tool@, args@),
{
    proof {
        reveal_strlit("path: \"\", pattern: ");
    }
    if same_text(tool, "find_files") {
        let path = args.str_field("path");
        let pattern = args.str_field("pattern");
        match (path, pattern) {
            (Some(p), Some(pat)) => {
                let mut r = String::from_str("path: ");
                r.append(debug_quote(p.as_str()).as_str());
                r.append(", pattern: ");
                r.append(debug_quote(pat.as_str()).as_str());
                r
            },
            (Some(p), None) => {
                let mut r = String::from_str("path: ");
                r.append(debug_quote(p.as_str()).as_str());
                r
            },
            (None, Some(pat)) => {
                let mut r = String::from_str("path: \"\", pattern: ");
                r.append(debug_quote(pat.as_str()).as_str());
                r
            },
            (None, None) => String::from_str(tool),
        }
    } else if same_text(tool, "read_file") {
        str_field_or(args, "path", tool)
    } else if same_text(tool, "edit_file") || same_text(tool, "write_file") || same_text(
        tool,
        "run_command",
    ) {
        str_field_or(args, "brief", tool)
    } else if same_text(tool, "search_text") {
        let pattern = str_field_or(args, "pattern", "");
        proof {
            reveal_strlit("");
            assert(""@ =~= Seq::<char>::empty());
        }
        match args.str_field("path") {
            Some(p) => {
                let mut r = debug_quote(pattern.as_str());
                r.append(" in ");
                r.append(p.as_str());
                r
            },
            None => debug_quote(pattern.as_str()),
        }
    } else if same_text(tool, "agent") {
        str_field_or(args, "to", "agent")
    } else if same_text(tool, "use_skill") {
        str_field_or(args, "skill_name", "unknown")
    } else if same_text(tool, "list_skills") {
        let offset: u64 = match args.u64_field("offset") {
            Some(n) => n,
            None => 0,
        };
        let limit: u64 = match args.u64_field("limit") {
            Some(n) => n,
            None => 20,
        };
        let mut r = String::from_str("offset: ");
        r.append(u64_to_decimal(offset).as_str());
        r.append(", limit: ");
        r.append(u64_to_decimal(limit).as_str());
        r
    } else if same_text(tool, "search_skills") {
        str_field_or(args, "query", "search skills")
    } else if same_text(tool, "remember_memory") || same_text(tool, "forget_memory") {
        match args.str_field("text") {
            Some(t) => debug_quote(t.as_str()),
            None => String::from_str(tool),
        }
    } else {
        String::from_str(tool)
    }
}

/// How a tool call is shown to the host, cut to `max_len` characters when given.
pub fn display_summary(tool: &str, args: &JsonValue, max_len: Option<usize>) -> (r: String)
    ensures
        r@ == display_summary_text(tool@, args@, max_len),
{
    if same_text(tool, "find_files") && args.str_field("path").is_none() && args.str_field(
        "pattern",
    ).is_none() {
        return tool.to_string();
    }
    let raw = summary_raw(tool, args);
    match max_len {
        Some(max) => {
            let c = chars_of(raw.as_str());
            if c.len() > max {
                let head = take_chars(&c, max);
                let mut r = string_from_chars(&head);
                r.append("...");
                r
            } else {
                raw
            }
        },
        None => raw,
    }
}

/// A text argument trimmed, or empty when the argument is missing.
pub open spec fn trimmed_arg(args: JsonView, key: Seq<char>) -> Seq<char> {
    match json_str_field(args, key) {
        Some(v) => trim(v),
        None => Seq::empty(),
    }
}

/// What a permission for a call of `name` is about: the command of `run_command`, the
/// memory file of a memory tool (by its scope; nothing for another scope or a refused
/// workspace), and the path argument of any other tool.
pub open spec fn candidate_text(kuku_home: Seq<char>, workspace: Seq<char>, name: Seq<char>, args: JsonView) -> Seq<
    char,
> {
    if name == "run_command"@ {
        trimmed_arg(args, "command"@)
    } else if name == "remember_memory"@ || name == "forget_memory"@ {
        match json_str_field(args, "scope"@) {
            Some(scope) => if trim(scope) == "global"@ {
                push_part(kuku_home, "memory.md"@)
            } else if trim(scope) == "project"@ && !has_parent_dir(workspace) {
                push_part(project_home_path(kuku_home, workspace), "memory.md"@)
            } else {
                Seq::empty()
            },
            None => Seq::empty(),
        }
    } else {
        trimmed_arg(args, "path"@)
    }
}

fn trimmed_field(args: &JsonValue, key: &str) -> (r: String)
    ensures
        r@ == trimmed_arg(args@, key@),
{
    match args.str_field(key) {
        Some(v) => trim_str(v.as_str()),
        None => String::new(),
    }
}

/// What a permission for a call of `name` with `args` is about.
pub fn permission_candidate(kuku_home: &str, workspace: &str, name: &str, args: &JsonValue) -> (r: String)
    ensures
        r@ == candidate_text(kuku_home@, workspace@, name@, args@),
{
    if same_text(name, "run_command") {
        trimmed_field(args, "command")
    } else if same_text(name, "remember_memory") || same_text(name, "forget_memory") {
        match args.str_field("scope") {
            Some(scope) => {
                let s = trim_str(scope.as_str());
                if same_text(s.as_str(), "global") {
                    global_memory_path(kuku_home)
                } else if same_text(s.as_str(), "project") {
                    match project_memory_path(kuku_home, workspace) {
                        Ok(p) => p,
                        Err(_) => String::new(),
                    }
                } else {
                    String::new()
                }
            },
            None => String::new(),
        }
    } else {
        trimmed_field(args, "path")
    }
}

/// The rule that a permission for a call records: the tool's name with its candidate in
/// parentheses.
pub fn permission_rule(kuku_home: &str, workspace: &str, name: &str, args: &JsonValue) -> (r: String)
    ensures
        r@ == name@ + "("@ + candidate_text(kuku_home@, workspace@, name@, args@) + ")"@,
{
    let mut r = String::from_str(name);
    r.append("(");
    let c = permission_candidate(kuku_home, workspace, name, args);
    r.append(c.as_str());
    r.append(")");
    proof {
        reveal_strlit("(");
        reveal_strlit(")");
    }
    r
}

/// Whether the log records a grant or a refusal for the tool call `tool_call_id`.
pub open spec fn decided(events: Seq<StoredEvent>, tool_call_id: Seq<char>) -> bool {
    exists|i: int|
        0 <= i < events.len() && match #[trigger] events[i].payload {
            EventPayload::PermissionAllow { tool_call_id: id, .. } => id@ == tool_call_id,
            EventPayload::PermissionDeny { tool_call_id: id, .. } => id@ == tool_call_id,
            _ => false,
        }
}

/// Whether the log records a grant or a refusal for the tool call `tool_call_id`.
pub fn has_permission_decision(events: &[StoredEvent], tool_call_id: &str) -> (b: bool)
    ensures
        b == decided(events@, tool_call_id@),
{
    let mut i: usize = 0;
    while i < events.len()
        invariant
            i <= events@.len(),
            forall|k: int|
                0 <= k < i ==> !match #[trigger] events@[k].payload {
                    EventPayload::PermissionAllow { tool_call_id: id, .. } => id@ == tool_call_id@,
                    EventPayload::PermissionDeny { tool_call_id: id, .. } => id@ == tool_call_id@,
                    _ => false,
                },
        decreases events@.len() - i,
    {
        let hit = match &events[i].payload {
            EventPayload::PermissionAllow { tool_call_id: id, .. } => same_text(id.as_str(), tool_call_id),
            EventPayload::PermissionDeny { tool_call_id: id, .. } => same_text(id.as_str(), tool_call_id),
            _ => false,
        };
        if hit {
            return true;
        }
        i = i + 1;
    }
    false
}

/// The run's tally of tool calls: how many, under which names, how many were refused and
/// how many failed.
#[derive(Debug, Clone, PartialEq, Eq)]
pub struct ToolTally {
    pub calls: u64,
    pub names: Vec<String>,
    pub denied: u64,
    pub errors: u64,
}

/// The names of a tally, as texts.
pub open spec fn name_texts(v: Seq<String>) -> Seq<Seq<char>> {
    crate::text::texts(v)
}

/// The names after recording a call of `name`: unchanged when it is there, else with it
/// appended.
pub open spec fn names_after(names: Seq<Seq<char>>, name: Seq<char>) -> Seq<Seq<char>> {
    if names.contains(name) {
        names
    } else {
        names.push(name)
    }
}

impl ToolTally {
    /// A tally without calls.
    pub fn new() -> (t: ToolTally)
        ensures
            t.calls == 0,
            t.names@.len() == 0,
            t.denied == 0,
            t.errors == 0,
    {
        ToolTally { calls: 0, names: Vec::new(), denied: 0, errors: 0 }
    }

    /// Records a call of the tool `name`.
    pub fn record_tool_call(&mut self, name: &str)
        requires
            old(self).calls < u64::MAX,
        ensures
            final(self).calls == old(self).calls + 1,
            name_texts(final(self).names@) == names_after(name_texts(old(self).names@), name@),
            final(self).denied == old(self).denied,
            final(self).errors == old(self).errors,
    {
        self.calls = self.calls + 1;
        let mut i: usize = 0;
        while i < self.names.len()
            invariant
                i <= self.names@.len(),
                self.names@ == old(self).names@,
                self.calls == old(self).calls + 1,
                self.denied == old(self).denied,
                self.errors == old(self).errors,
                forall|k: int| 0 <= k < i ==> (#[trigger] self.names@[k])@ != name@,
            decreases self.names@.len() - i,
        {
            if same_text(self.names[i].as_str(), name) {
                proof {
                    assert(name_texts(self.names@)[i as int] == name@);
                }
                return;
            }
            i = i + 1;
        }
        proof {
            assert forall|k: int| 0 <= k < name_texts(self.names@).len() implies #[trigger] name_texts(
                self.names@,
            )[k] != name@ by {
                assert(name_texts(self.names@)[k] == self.names@[k]@);
            }
        }
        self.names.push(String::from_str(name));
        proof {
            assert(name_texts(self.names@) =~= name_texts(old(self).names@).push(name@));
        }
    }

    /// Records a refused call of the tool `name`.
    pub fn record_tool_denied(&mut self, name: &str)
        requires
            old(self).calls < u64::MAX,
            old(self).denied < u64::MAX,
        ensures
            final(self).calls == old(self).calls + 1,
            name_texts(final(self).names@) == names_after(name_texts(old(self).names@), name@),
            final(self).denied == old(self).denied + 1,
            final(self).errors == old(self).errors,
    {
        self.record_tool_call(name);
        self.denied = self.denied + 1;
    }

    /// Records a failed call of the tool `name`.
    pub fn record_tool_error(&mut self, name: &str)
        requires
            old(self).calls < u64::MAX,
            old(self).errors < u64::MAX,
        ensures
            final(self).calls == old(self).calls + 1,
            name_texts(final(self).names@) == names_after(name_texts(old(self).names@), name@),
            final(self).denied == old(self).denied,
            final(self).errors == old(self).errors + 1,
    {
        self.record_tool_call(name);
        self.errors = self.errors + 1;
    }
}

/// Recording a call never lists a name twice.
pub proof fn law_tally_names_stay_distinct(names: Seq<Seq<char>>, name: Seq<char>)
    requires
        forall|a: int, b: int| 0 <= a < b < names.len() ==> (#[trigger] names[a]) != (#[trigger] names[b]),
    ensures
        forall|a: int, b: int|
            0 <= a < b < names_after(names, name).len() ==> (#[trigger] names_after(names, name)[a])
                != (#[trigger] names_after(names, name)[b]),
{
    if !names.contains(name) {
        let n = names.push(name);
        assert forall|a: int, b: int| 0 <= a < b < n.len() implies (#[trigger] n[a]) != (#[trigger] n[b]) by {
            if b == names.len() {
                assert(n[a] == names[a]);
                if names[a] == name {
                    assert(names.contains(name));
                }
            } else {
                assert(n[a] == names[a] && n[b] == names[b]);
            }
        }
    }
}

/// The tool event that a child run's UI event is forwarded as: every event but the
/// run's own bookkeeping (its output, turn starts, model requests and cancellation).
pub open spec fn tool_event_of(event: UiEvent) -> Option<ToolEvent> {
    match event {
        UiEvent::TextDelta { text } => Some(ToolEvent::TextDelta { text }),
        UiEvent::ThinkingDelta { text } => Some(ToolEvent::ThinkingDelta { text }),
        UiEvent::ToolStart { id, tool, summary, kind } => Some(ToolEvent::ToolStart { id, tool, summary, kind }),
        UiEvent::ToolOutput { id, event } => Some(ToolEvent::ToolOutput { id, event: Box::new(event) }),
        UiEvent::ToolEnd { id, status, summary, .. } => Some(ToolEvent::ToolEnd { id, status, summary }),
        UiEvent::PermissionRequested { request } => Some(ToolEvent::PermissionRequested { request }),
        UiEvent::Error { code, message } => Some(ToolEvent::Error { code, message }),
        _ => None,
    }
}

/// The tool event that a child run's UI event is forwarded as, if any.
pub fn map_ui_to_tool_event(event: UiEvent) -> (r: Option<ToolEvent>)
    ensures
        r == tool_event_of(event),
        r is None <==> (event is Done || event is TurnStart || event is ModelRequest
            || event is Cancelled),
{
    match event {
        UiEvent::TextDelta { text } => Some(ToolEvent::TextDelta { text }),
        UiEvent::ThinkingDelta { text } => Some(ToolEvent::ThinkingDelta { text }),
        UiEvent::ToolStart { id, tool, summary, kind } => Some(
            ToolEvent::ToolStart { id, tool, summary, kind },
        ),
        UiEvent::ToolOutput { id, event } => Some(ToolEvent::ToolOutput { id, event: Box::new(event) }),
        UiEvent::ToolEnd { id, status, summary, .. } => Some(ToolEvent::ToolEnd { id, status, summary }),
        UiEvent::PermissionRequested { request } => Some(ToolEvent::PermissionRequested { request }),
        UiEvent::Error { code, message } => Some(ToolEvent::Error { code, message }),
        UiEvent::Done { .. } => None,
        UiEvent::TurnStart { .. } | UiEvent::ModelRequest { .. } | UiEvent::Cancelled { .. } => None,
    }
}


/// A tool of the registry that a run offers the model: its name and the most characters
/// of its result that the model reads.
#[derive(Debug, Clone, PartialEq, Eq)]
pub struct OfferedTool {
    pub name: String,
    pub max_result_chars: usize,
}

/// Whether a tool named `name` is among `registry`.
pub open spec fn offers(registry: Seq<OfferedTool>, name: Seq<char>) -> bool {
    exists|i: int| 0 <= i < registry.len() && (#[trigger] registry[i]).name@ == name
}

/// Whether the run may execute tool `name` with the registry in effect: inline Skill tools
/// not while Skills are disabled, and only tools that the registry offers.
pub fn tool_available(registry: &[OfferedTool], skills_disabled: bool, name: &str) -> (b: bool)
    ensures
        b == (!((name@ == "list_skills"@ || name@ == "search_skills"@ || name@ == "use_skill"@)
            && skills_disabled) && offers(registry@, name@)),
{
    if is_inline_skill_tool(name) && skills_disabled {
        return false;
    }
    let mut i: usize = 0;
    while i < registry.len()
        invariant
            i <= registry@.len(),
            !((name@ == "list_skills"@ || name@ == "search_skills"@ || name@ == "use_skill"@)
                && skills_disabled),
            forall|j: int| 0 <= j < i ==> (#[trigger] registry@[j]).name@ != name@,
        decreases registry@.len() - i,
    {
        if same_text(registry[i].name.as_str(), name) {
            return true;
        }
        i = i + 1;
    }
    false
}

/// The result limit of the first tool of `registry` named `name`, if any.
pub fn tool_result_limit(registry: &[OfferedTool], name: &str) -> (r: Option<usize>)
    ensures
        match r {
            Some(m) => exists|i: int|
                0 <= i < registry@.len() && (#[trigger] registry@[i]).name@ == name@
                    && registry@[i].max_result_chars == m && forall|j: int|
                    0 <= j < i ==> (#[trigger] registry@[j]).name@ != name@,
            None => !offers(registry@, name@),
        },
{
    let mut i: usize = 0;
    while i < registry.len()
        invariant
            i <= registry@.len(),
            forall|j: int| 0 <= j < i ==> (#[trigger] registry@[j]).name@ != name@,
        decreases registry@.len() - i,
    {
        if same_text(registry[i].name.as_str(), name) {
            return Some(registry[i].max_result_chars);
        }
        i = i + 1;
    }
    None
}

} // verus!
