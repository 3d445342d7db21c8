//! Values exchanged between the runtime and its host.

use vstd::prelude::*;

use crate::json::{JsonValue, JsonView};

verus! {

/// A tool call requested by the model.
#[derive(Debug, PartialEq, Eq)]
pub struct ProviderToolCall {
    pub id: String,
    pub name: String,
    pub args: JsonValue,
    pub index: u64,
}

/// The value of a [`ProviderToolCall`].
pub struct ToolCallView {
    pub id: Seq<char>,
    pub name: Seq<char>,
    pub args: JsonView,
    pub index: u64,
}

impl View for ProviderToolCall {
    type V = ToolCallView;

    open spec fn view(&self) -> ToolCallView {
        ToolCallView { id: self.id@, name: self.name@, args: self.args@, index: self.index }
    }
}

impl ProviderToolCall {
    /// A copy of this tool call.
    pub fn duplicate(&self) -> (r: ProviderToolCall)
        ensures
            r@ == self@,
    {
        ProviderToolCall {
            id: self.id.clone(),
            name: self.name.clone(),
            args: self.args.duplicate(),
            index: self.index,
        }
    }
}

/// A pending permission request for a tool call.
#[derive(Debug, Clone, PartialEq, Eq)]
pub struct PermissionRequest {
    pub id: String,
    pub tool_call_id: String,
    pub tool: String,
    pub risk: String,
    pub summary: String,
    pub candidate: String,
    pub source: String,
}

/// The value of a [`PermissionRequest`].
pub struct PermissionRequestView {
    pub id: Seq<char>,
    pub tool_call_id: Seq<char>,
    pub tool: Seq<char>,
    pub risk: Seq<char>,
    pub summary: Seq<char>,
    pub candidate: Seq<char>,
    pub source: Seq<char>,
}

impl View for PermissionRequest {
    type V = PermissionRequestView;

    open spec fn view(&self) -> PermissionRequestView {
        PermissionRequestView {
            id: self.id@,
            tool_call_id: self.tool_call_id@,
            tool: self.tool@,
            risk: self.risk@,
            summary: self.summary@,
            candidate: self.candidate@,
            source: self.source@,
        }
    }
}

impl PermissionRequest {
    /// A copy of this request.
    pub fn duplicate(&self) -> (r: PermissionRequest)
        ensures
            r@ == self@,
    {
        PermissionRequest {
            id: self.id.clone(),
            tool_call_id: self.tool_call_id.clone(),
            tool: self.tool.clone(),
            risk: self.risk.clone(),
            summary: self.summary.clone(),
            candidate: self.candidate.clone(),
            source: self.source.clone(),
        }
    }
}

/// The host's response to a permission request.
#[derive(Debug, Clone, Copy, PartialEq, Eq, Structural)]
pub enum PermissionChoice {
    Once,
    Session,
    Project,
    Deny,
}

/// Identifies the kind of tool execution.
#[derive(Debug, Clone, PartialEq, Eq)]
pub enum ToolKind {
    Simple,
    Agent { child_session_id: String },
    Command { pid: Option<u32> },
}

/// Events produced during a tool execution phase.
#[derive(Debug, PartialEq, Eq)]
pub enum ToolEvent {
    TextDelta { text: String },
    ThinkingDelta { text: String },
    ToolStart { id: String, tool: String, summary: String, kind: ToolKind },
    ToolOutput { id: String, event: Box<ToolEvent> },
    ToolEnd { id: String, status: String, summary: String },
    Stdout { text: String },
    Stderr { text: String },
    PermissionRequested { request: PermissionRequest },
    Error { code: String, message: String },
}

/// Permission mode for child sessions.
#[derive(Debug, Clone, Copy, PartialEq, Eq, Structural)]
pub enum PermissionMode {
    AutoAllow,
    Interactive,
}

/// Token usage reported by a provider for one request.
#[derive(Debug, Clone, Copy, PartialEq, Eq, Structural)]
pub struct ProviderUsage {
    pub input_tokens: Option<u64>,
    pub output_tokens: Option<u64>,
    pub cache_read_input_tokens: Option<u64>,
    pub cache_creation_input_tokens: Option<u64>,
}

/// Counts of the tool calls made during a run.
#[derive(Debug, Clone, PartialEq, Eq)]
pub struct ToolSummary {
    pub total_calls: u64,
    pub names: Vec<String>,
    pub denied: u64,
    pub errors: u64,
    pub rounds: u64,
}

impl ToolSummary {
    /// A summary with no calls.
    pub fn new() -> (s: ToolSummary)
        ensures
            s.total_calls == 0,
            s.names@.len() == 0,
            s.denied == 0,
            s.errors == 0,
            s.rounds == 0,
    {
        ToolSummary { total_calls: 0, names: Vec::new(), denied: 0, errors: 0, rounds: 0 }
    }
}

impl Default for ToolSummary {
    fn default() -> (s: ToolSummary)
        ensures
            s.total_calls == 0,
            s.names@.len() == 0,
            s.denied == 0,
            s.errors == 0,
            s.rounds == 0,
    {
        ToolSummary::new()
    }
}

/// Final output from a completed query run.
#[derive(Debug, Clone, PartialEq, Eq)]
pub struct RunOutput {
    pub session_id: String,
    pub text: String,
    pub usage: Option<ProviderUsage>,
    pub turn: u64,
    pub model_request_count: u64,
    pub thinking_duration_ms: u64,
    pub tool_summary: ToolSummary,
    pub session_dir: String,
    pub workspace: String,
}

impl RunOutput {
    /// Output of a run that has made no model request and no tool call yet.
    pub fn new(session_id: String, text: String, usage: Option<ProviderUsage>, turn: u64) -> (o:
        RunOutput)
        ensures
            o.session_id == session_id,
            o.text == text,
            o.usage == usage,
            o.turn == turn,
            o.model_request_count == 0,
            o.thinking_duration_ms == 0,
            o.tool_summary.total_calls == 0,
            o.tool_summary.names@.len() == 0,
            o.tool_summary.denied == 0,
            o.tool_summary.errors == 0,
            o.tool_summary.rounds == 0,
            o.session_dir@.len() == 0,
            o.workspace@.len() == 0,
    {
        RunOutput {
            session_id,
            text,
            usage,
            turn,
            model_request_count: 0,
            thinking_duration_ms: 0,
            tool_summary: ToolSummary::new(),
            session_dir: String::new(),
            workspace: String::new(),
        }
    }
}

/// Host-facing runtime event stream.
#[derive(Debug, PartialEq, Eq)]
pub enum UiEvent {
    TextDelta { text: String },
    ThinkingDelta { text: String },
    ToolStart { id: String, tool: String, summary: String, kind: ToolKind },
    ToolOutput { id: String, event: ToolEvent },
    ToolEnd {
        id: String,
        status: String,
        summary: String,
        model_content: Option<String>,
        result: Option<JsonValue>,
    },
    PermissionRequested { request: PermissionRequest },
    Error { code: String, message: String },
    ModelRequest { model: String, provider: String },
    TurnStart { turn: u64 },
    Done { output: RunOutput, usage: Option<ProviderUsage>, turn: u64 },
    Cancelled { turn: u64 },
}

/// An entry of a workspace directory listing.
#[derive(Debug, Clone, PartialEq, Eq)]
pub struct WorkspaceEntry {
    pub path: String,
    pub is_file: bool,
    pub is_dir: bool,
}

/// A command to run in the workspace.
#[derive(Debug, PartialEq, Eq)]
pub struct WorkspaceCommandRequest {
    pub command: String,
    pub timeout: std::time::Duration,
    pub max_output_bytes: usize,
}

/// Output streamed by a running workspace command.
#[derive(Debug, Clone, PartialEq, Eq)]
pub enum WorkspaceCommandEvent {
    Stdout(Vec<u8>),
    Stderr(Vec<u8>),
}

/// Result of a workspace command.
#[derive(Debug, Clone, PartialEq, Eq)]
pub struct WorkspaceCommandOutput {
    pub exit_code: Option<i32>,
    pub timed_out: bool,
    pub cancelled: bool,
    pub stdout: Vec<u8>,
    pub stderr: Vec<u8>,
    pub duration_ms: u64,
}

} // verus!
