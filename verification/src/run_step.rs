//! The decisions of a run between provider requests: what the next step is, how a
//! permission gate's verdict and a host's choice are carried out, what limits a
//! delegation, and how a finished response updates the run.

use vstd::prelude::*;

use crate::error::Error;
use crate::events::same_text;
use crate::json::{json_str_field, JsonValue, JsonView};
use crate::text::{texts, trim_end};
use crate::text::trim_str;
use crate::tools::{
    gate_choice, gate_choice_of, gate_source_name, gate_source_text, requires_ordered_simple_execution,
    truncate_summary, truncated_summary, GateSource,
};
use crate::text::{decimal, trim, u64_to_decimal};
use crate::types::{PermissionChoice, PermissionRequest, ProviderUsage};

verus! {

/// What a run knows when it takes its next step between provider requests.
#[derive(Debug, Clone, PartialEq, Eq)]
pub struct StepState {
    /// The host asked to cancel the turn.
    pub cancelled: bool,
    /// An event of an earlier inline execution waits to be handed out.
    pub has_pending_event: bool,
    /// An earlier step failed.
    pub has_pending_error: bool,
    /// The name of the tool call at the front of the queue, if any.
    pub front_tool: Option<String>,
    /// Whether that tool is an inline Skill tool that the run offers.
    pub front_inline_available: bool,
    /// Whether that call already has a permission request from before a resume.
    pub front_has_resumed_request: bool,
}

/// The next step of a run.
#[derive(Debug, Clone, Copy, PartialEq, Eq, Structural)]
pub enum PendingAction {
    FinishCancelled,
    EmitPendingEvent,
    Fail,
    DelegateToAgent,
    RunInlineSkillTool,
    AskResumedPermission,
    GateToolCall,
    CallProvider,
}

/// The next step: a cancellation ends the turn; then waiting events and errors come out;
/// then the front tool call is delegated (`agent`), run inline (an offered Skill tool),
/// asked again (a request from before a resume) or put to the permission gate; with
/// nothing queued the provider is called.
pub open spec fn next_action(s: StepState) -> PendingAction {
    if s.cancelled {
        PendingAction::FinishCancelled
    } else if s.has_pending_event {
        PendingAction::EmitPendingEvent
    } else if s.has_pending_error {
        PendingAction::Fail
    } else {
        match s.front_tool {
            Some(name) => if name@ == "agent"@ {
                PendingAction::DelegateToAgent
            } else if s.front_inline_available {
                PendingAction::RunInlineSkillTool
            } else if s.front_has_resumed_request {
                PendingAction::AskResumedPermission
            } else {
                PendingAction::GateToolCall
            },
            None => PendingAction::CallProvider,
        }
    }
}

/// The next step of a run.
pub fn next_pending_action(s: &StepState) -> (a: PendingAction)
    ensures
        a == next_action(*s),
{
    if s.cancelled {
        PendingAction::FinishCancelled
    } else if s.has_pending_event {
        PendingAction::EmitPendingEvent
    } else if s.has_pending_error {
        PendingAction::Fail
    } else {
        match &s.front_tool {
            Some(name) => if same_text(name.as_str(), "agent") {
                PendingAction::DelegateToAgent
            } else if s.front_inline_available {
                PendingAction::RunInlineSkillTool
            } else if s.front_has_resumed_request {
                PendingAction::AskResumedPermission
            } else {
                PendingAction::GateToolCall
            },
            None => PendingAction::CallProvider,
        }
    }
}

/// How deep delegations may nest.
pub const MAX_AGENT_DEPTH: u32 = 2;

/// How many tool slots may run at once.
pub const MAX_ACTIVE_SLOTS: usize = 32;

/// Why a delegation is refused, if it is: the nesting limit first, then the slot limit.
pub open spec fn agent_block_text(child_session_count: u32, active_slot_count: usize) -> Option<Seq<char>> {
    if child_session_count >= MAX_AGENT_DEPTH {
        Some("blocked: maximum agent delegation depth (2) reached"@)
    } else if active_slot_count >= MAX_ACTIVE_SLOTS {
        Some("blocked: maximum concurrent slots (32) reached"@)
    } else {
        None
    }
}

/// Why a delegation is refused, if it is.
pub fn agent_block_reason(child_session_count: u32, active_slot_count: usize) -> (r: Option<String>)
    ensures
        match r {
            Some(t) => agent_block_text(child_session_count, active_slot_count) == Some(t@),
            None => agent_block_text(child_session_count, active_slot_count) is None,
        },
{
    proof {
        reveal_strlit("blocked: maximum agent delegation depth (2) reached");
        reveal_strlit("blocked: maximum concurrent slots (32) reached");
    }
    if child_session_count >= MAX_AGENT_DEPTH {
        Some(String::from_str("blocked: maximum agent delegation depth (2) reached"))
    } else if active_slot_count >= MAX_ACTIVE_SLOTS {
        Some(String::from_str("blocked: maximum concurrent slots (32) reached"))
    } else {
        None
    }
}

/// Why a tool slot is refused, if it is: all slots are busy.
pub fn slot_block_reason(active_slot_count: usize) -> (r: Option<String>)
    ensures
        r is Some <==> active_slot_count >= MAX_ACTIVE_SLOTS,
        r matches Some(t) ==> t@ == "blocked: maximum concurrent slots (32) reached"@,
{
    proof {
        reveal_strlit("blocked: maximum concurrent slots (32) reached");
    }
    if active_slot_count >= MAX_ACTIVE_SLOTS {
        Some(String::from_str("blocked: maximum concurrent slots (32) reached"))
    } else {
        None
    }
}

/// What an `agent` call asks for: the conversation to delegate to, the message and the
/// tier, each read from its arguments (the first two empty when missing).
pub open spec fn agent_args(args: JsonView) -> (Seq<char>, Seq<char>, Option<Seq<char>>) {
    (
        match json_str_field(args, "to"@) {
            Some(t) => t,
            None => Seq::empty(),
        },
        match json_str_field(args, "message"@) {
            Some(m) => m,
            None => Seq::empty(),
        },
        json_str_field(args, "tier"@),
    )
}

/// What an `agent` call asks for: target, message and tier.
pub fn agent_call_args(args: &JsonValue) -> (r: (String, String, Option<String>))
    ensures
        (r.0@, r.1@, match r.2 {
            Some(t) => Some(t@),
            None => None,
        }) == agent_args(args@),
{
    proof {
        reveal_strlit("");
    }
    let target = match args.str_field("to") {
        Some(t) => t.clone(),
        None => String::new(),
    };
    let message = match args.str_field("message") {
        Some(m) => m.clone(),
        None => String::new(),
    };
    let tier = match args.str_field("tier") {
        Some(t) => Some(t.clone()),
        None => None,
    };
    (target, message, tier)
}

/// The label of a delegation's slot: the conversation and the start of the message.
pub open spec fn agent_label_text(conversation: Seq<char>, prompt: Seq<char>) -> Seq<char> {
    conversation + " · "@ + truncated_summary(prompt, 60)
}

/// The label of a delegation's slot.
pub fn agent_slot_label(conversation: &str, prompt: &str) -> (r: String)
    ensures
        r@ == agent_label_text(conversation@, prompt@),
{
    let mut r = String::from_str(conversation);
    r.append(" · ");
    let t = truncate_summary(prompt, 60);
    r.append(t.as_str());
    proof {
        reveal_strlit(" · ");
    }
    r
}

/// The verdict of the permission gate on a tool call.
#[derive(Debug, Clone, Copy, PartialEq, Eq, Structural)]
pub enum GateDecisionKind {
    Allow,
    Ask,
    Deny,
}

/// What the run does with a gate verdict on the call at the front of its queue.
#[derive(Debug, Clone, Copy, PartialEq, Eq, Structural)]
pub enum GateAction {
    /// Record a permission request and wait for the host.
    AskHost,
    /// Run the call, first recording the grant under this choice when there is one.
    Run { record: Option<PermissionChoice> },
    /// Record the request and its refusal, count the refusal and answer with a blocked
    /// result.
    Refuse,
}

/// What a verdict of `source` leads to: an allowance is recorded, except one of the
/// trust posture, which needs no record.
pub open spec fn gate_action_of(kind: GateDecisionKind, source: GateSource, already_decided: bool) -> GateAction {
    match kind {
        GateDecisionKind::Ask => GateAction::AskHost,
        GateDecisionKind::Allow => GateAction::Run {
            record: if source == GateSource::TrustPosture || already_decided {
                None
            } else {
                Some(gate_choice_of(source))
            },
        },
        GateDecisionKind::Deny => GateAction::Refuse,
    }
}

/// What the run does with a gate verdict; `already_decided` tells whether the log already
/// records a decision for the call, which is then not recorded again.
pub fn gate_action(kind: GateDecisionKind, source: GateSource, already_decided: bool) -> (a: GateAction)
    ensures
        a == gate_action_of(kind, source, already_decided),
{
    match kind {
        GateDecisionKind::Ask => GateAction::AskHost,
        GateDecisionKind::Allow => {
            let trust = match source {
                GateSource::TrustPosture => true,
                _ => false,
            };
            if trust || already_decided {
                GateAction::Run { record: None }
            } else {
                GateAction::Run { record: Some(gate_choice(&source)) }
            }
        },
        GateDecisionKind::Deny => GateAction::Refuse,
    }
}

/// The permission request for a tool call held at the permission gate: it carries the
/// call's id and names the source of the verdict.
pub fn gate_request(
    tool_call_id: &str,
    tool: &str,
    risk: &str,
    summary: &str,
    candidate: &str,
    source: GateSource,
) -> (r: PermissionRequest)
    ensures
        r.id@ == tool_call_id@,
        r.tool_call_id@ == tool_call_id@,
        r.tool@ == tool@,
        r.risk@ == risk@,
        r.summary@ == summary@,
        r.candidate@ == candidate@,
        r.source@ == gate_source_text(source),
{
    PermissionRequest {
        id: String::from_str(tool_call_id),
        tool_call_id: String::from_str(tool_call_id),
        tool: String::from_str(tool),
        risk: String::from_str(risk),
        summary: String::from_str(summary),
        candidate: String::from_str(candidate),
        source: String::from_str(gate_source_name(source)),
    }
}

/// What the run does after the host's choice on the request it waits for.
#[derive(Debug, Clone, Copy, PartialEq, Eq, Structural)]
pub enum ChoiceStep {
    /// Count the refusal and answer the call with a blocked result.
    Refuse,
    /// Put the call back at the front: an ordered file tool is still running.
    Requeue,
    /// Run the pre-tool hooks and then the call.
    Run,
}

/// How a host's choice is carried out.
#[derive(Debug, Clone, Copy, PartialEq, Eq, Structural)]
pub struct ChoicePlan {
    /// The choice adds a rule to the project's policy.
    pub persist_project_rule: bool,
    pub step: ChoiceStep,
}

/// How a host's choice on a call of `tool_name` is carried out.
pub open spec fn choice_plan_of(choice: PermissionChoice, tool_name: Seq<char>, ordered_slot_active: bool) -> ChoicePlan {
    ChoicePlan {
        persist_project_rule: choice == PermissionChoice::Project,
        step: if choice == PermissionChoice::Deny {
            ChoiceStep::Refuse
        } else if (tool_name == "read_file"@ || tool_name == "edit_file"@ || tool_name
            == "write_file"@) && ordered_slot_active {
            ChoiceStep::Requeue
        } else {
            ChoiceStep::Run
        },
    }
}

/// How a host's choice on a call of `tool_name` is carried out, while an ordered file
/// tool is running or not.
pub fn plan_permission_choice(choice: PermissionChoice, tool_name: &str, ordered_slot_active: bool) -> (p: ChoicePlan)
    ensures
        p == choice_plan_of(choice, tool_name@, ordered_slot_active),
{
    let persist = match choice {
        PermissionChoice::Project => true,
        _ => false,
    };
    let step = match choice {
        PermissionChoice::Deny => ChoiceStep::Refuse,
        _ => if requires_ordered_simple_execution(tool_name) && ordered_slot_active {
            ChoiceStep::Requeue
        } else {
            ChoiceStep::Run
        },
    };
    ChoicePlan { persist_project_rule: persist, step }
}

/// Accepts a host's choice only for the request that the run waits for.
pub fn check_pending_request(waiting: Option<&PermissionRequest>, request_id: &str) -> (r: Result<
    (),
    Error,
>)
    ensures
        r is Ok <==> (waiting matches Some(w) && w.id@ == request_id@),
        r matches Err(e) ==> e == Error::PermissionRequestNotPending(e->PermissionRequestNotPending_0)
            && e->PermissionRequestNotPending_0@ == request_id@,
{
    match waiting {
        Some(w) => if same_text(w.id.as_str(), request_id) {
            Ok(())
        } else {
            Err(Error::PermissionRequestNotPending(String::from_str(request_id)))
        },
        None => Err(Error::PermissionRequestNotPending(String::from_str(request_id))),
    }
}

/// The run's running totals.
#[derive(Debug, Clone, Copy, PartialEq, Eq, Structural)]
pub struct RunCounters {
    pub input_tokens: u64,
    pub output_tokens: u64,
    pub cache_read_input_tokens: u64,
    pub cache_creation_input_tokens: u64,
    pub thinking_duration_ms: u64,
    pub model_request_count: u64,
    pub tool_rounds: u64,
}

/// A reported count, or nothing.
pub open spec fn count(v: Option<u64>) -> nat {
    match v {
        Some(n) => n as nat,
        None => 0,
    }
}

/// The totals after a response: its usage added, its thinking time added, one more
/// request, and one more tool round when it asked for tools.
pub open spec fn counters_after(
    c: RunCounters,
    usage: Option<ProviderUsage>,
    thinking_ms: u64,
    has_tool_calls: bool,
) -> (nat, nat, nat, nat, nat, nat, nat) {
    let (i, o, r, w) = match usage {
        Some(u) => (
            count(u.input_tokens),
            count(u.output_tokens),
            count(u.cache_read_input_tokens),
            count(u.cache_creation_input_tokens),
        ),
        None => (0nat, 0nat, 0nat, 0nat),
    };
    (
        c.input_tokens as nat + i,
        c.output_tokens as nat + o,
        c.cache_read_input_tokens as nat + r,
        c.cache_creation_input_tokens as nat + w,
        c.thinking_duration_ms as nat + thinking_ms as nat,
        c.model_request_count as nat + 1nat,
        c.tool_rounds as nat + if has_tool_calls {
            1nat
        } else {
            0nat
        },
    )
}

/// The view of the totals as numbers.
pub open spec fn counters_view(c: RunCounters) -> (nat, nat, nat, nat, nat, nat, nat) {
    (
        c.input_tokens as nat,
        c.output_tokens as nat,
        c.cache_read_input_tokens as nat,
        c.cache_creation_input_tokens as nat,
        c.thinking_duration_ms as nat,
        c.model_request_count as nat,
        c.tool_rounds as nat,
    )
}

/// Whether every total still fits after the response.
pub open spec fn counters_fit(t: (nat, nat, nat, nat, nat, nat, nat)) -> bool {
    t.0 <= u64::MAX && t.1 <= u64::MAX && t.2 <= u64::MAX && t.3 <= u64::MAX && t.4 <= u64::MAX
        && t.5 <= u64::MAX && t.6 <= u64::MAX
}

fn add_count(total: u64, v: Option<u64>) -> (r: u64)
    requires
        total + count(v) <= u64::MAX,
    ensures
        r == total + count(v),
{
    match v {
        Some(n) => total + n,
        None => total,
    }
}

/// Adds a finished response to the run's totals.
pub fn record_response(
    c: &mut RunCounters,
    usage: Option<&ProviderUsage>,
    thinking_ms: u64,
    has_tool_calls: bool,
)
    requires
        counters_fit(
            counters_after(
                *old(c),
                match usage {
                    Some(u) => Some(*u),
                    None => None,
                },
                thinking_ms,
                has_tool_calls,
            ),
        ),
    ensures
        counters_view(*final(c)) == counters_after(
            *old(c),
            match usage {
                Some(u) => Some(*u),
                None => None,
            },
            thinking_ms,
            has_tool_calls,
        ),
{
    match usage {
        Some(u) => {
            c.input_tokens = add_count(c.input_tokens, u.input_tokens);
            c.output_tokens = add_count(c.output_tokens, u.output_tokens);
            c.cache_read_input_tokens = add_count(c.cache_read_input_tokens, u.cache_read_input_tokens);
            c.cache_creation_input_tokens = add_count(
                c.cache_creation_input_tokens,
                u.cache_creation_input_tokens,
            );
        },
        None => {},
    }
    c.thinking_duration_ms = c.thinking_duration_ms + thinking_ms;
    c.model_request_count = c.model_request_count + 1;
    if has_tool_calls {
        c.tool_rounds = c.tool_rounds + 1;
    }
}

/// The stop reason recorded for a response: the provider's, else `tool_use` when it
/// asked for tools and `end_turn` when it did not.
pub fn final_stop_reason(stop_reason: Option<String>, has_tool_calls: bool) -> (r: String)
    ensures
        r@ == match stop_reason {
            Some(s) => s@,
            None => if has_tool_calls {
                "tool_use"@
            } else {
                "end_turn"@
            },
        },
{
    proof {
        reveal_strlit("tool_use");
        reveal_strlit("end_turn");
    }
    match stop_reason {
        Some(s) => s,
        None => if has_tool_calls {
            String::from_str("tool_use")
        } else {
            String::from_str("end_turn")
        },
    }
}

/// The input token total that a response records: the input, cache-read and
/// cache-creation counts added, when the total is positive and fits a `u32`.
pub open spec fn response_total(usage: ProviderUsage) -> Option<u32> {
    let total = count(usage.input_tokens) + count(usage.cache_read_input_tokens) + count(
        usage.cache_creation_input_tokens,
    );
    if 0 < total <= u32::MAX {
        Some(total as u32)
    } else {
        None
    }
}

/// The input token total that a response records, if any.
pub fn response_input_total(usage: Option<&ProviderUsage>) -> (r: Option<u32>)
    requires
        usage matches Some(u) ==> count(u.input_tokens) + count(u.cache_read_input_tokens) + count(
            u.cache_creation_input_tokens,
        ) <= u64::MAX,
    ensures
        r == match usage {
            Some(u) => response_total(*u),
            None => None,
        },
{
    match usage {
        Some(u) => {
            let total = add_count(add_count(add_count(0, u.input_tokens), u.cache_read_input_tokens), u.cache_creation_input_tokens);
            if total > 0 && total <= u32::MAX as u64 {
                Some(total as u32)
            } else {
                None
            }
        },
        None => None,
    }
}

/// The summary that a handoff records: the model's summary trimmed, or, when that is
/// empty, the last user input, or a fixed notice without one.
pub open spec fn handoff_summary_of(summary: Seq<char>, last_user_input: Option<Seq<char>>) -> Seq<char> {
    if trim(summary).len() > 0 {
        trim(summary)
    } else {
        match last_user_input {
            Some(t) => t,
            None => "handoff summary unavailable"@,
        }
    }
}

/// The summary that a handoff records.
pub fn handoff_summary_text(summary: &str, last_user_input: Option<String>) -> (r: String)
    ensures
        r@ == handoff_summary_of(
            summary@,
            match last_user_input {
                Some(t) => Some(t@),
                None => None,
            },
        ),
{
    let trimmed = trim_str(summary);
    if trimmed.as_str().unicode_len() > 0 {
        trimmed
    } else {
        proof {
            reveal_strlit("handoff summary unavailable");
        }
        match last_user_input {
            Some(t) => t,
            None => String::from_str("handoff summary unavailable"),
        }
    }
}

/// The id of a turn's request number `n`: `req_` and the number.
pub fn request_id(n: u64) -> (r: String)
    ensures
        r@ == "req_"@ + decimal(n as nat),
{
    let mut r = String::from_str("req_");
    proof {
        reveal_strlit("req_");
    }
    r.append(u64_to_decimal(n).as_str());
    r
}

/// Why a waiting permission request cannot be closed as cancelled, if it cannot: the call
/// at the front of the queue must be the request's.
pub open spec fn cancel_problem(request_id: Seq<char>, request_call: Seq<char>, front: Option<Seq<char>>) -> Option<
    Seq<char>,
> {
    match front {
        Some(f) => if f == request_call {
            None
        } else {
            Some(
                "pending permission "@ + request_id + " expects tool call "@ + request_call
                    + ", but queued tool call is "@ + f,
            )
        },
        None => Some("pending permission "@ + request_id + " has no queued tool call"@),
    }
}

/// Checks that the waiting request can be closed as cancelled: the call at the front of
/// the queue is the one it asks about.
pub fn check_cancellable(request: &PermissionRequest, front_tool_call_id: Option<&str>) -> (r: Result<
    (),
    Error,
>)
    ensures
        match cancel_problem(
            request.id@,
            request.tool_call_id@,
            match front_tool_call_id {
                Some(f) => Some(f@),
                None => None,
            },
        ) {
            None => r is Ok,
            Some(m) => r matches Err(e) && e matches Error::InvalidEventStream(x) && x@ == m,
        },
{
    proof {
        reveal_strlit("pending permission ");
        reveal_strlit(" expects tool call ");
        reveal_strlit(", but queued tool call is ");
        reveal_strlit(" has no queued tool call");
    }
    match front_tool_call_id {
        Some(f) => if same_text(f, request.tool_call_id.as_str()) {
            Ok(())
        } else {
            let mut m = String::from_str("pending permission ");
            m.append(request.id.as_str());
            m.append(" expects tool call ");
            m.append(request.tool_call_id.as_str());
            m.append(", but queued tool call is ");
            m.append(f);
            Err(Error::InvalidEventStream(m))
        },
        None => {
            let mut m = String::from_str("pending permission ");
            m.append(request.id.as_str());
            m.append(" has no queued tool call");
            Err(Error::InvalidEventStream(m))
        },
    }
}

/// The model content that a finished tool hands the host: none when it is empty.
pub fn handed_model_content(model_content: String) -> (r: Option<String>)
    ensures
        r is None <==> model_content@.len() == 0,
        r matches Some(c) ==> c@ == model_content@,
{
    if model_content.as_str().unicode_len() == 0 {
        None
    } else {
        Some(model_content)
    }
}

/// Where a run stands between calls of its event loop.
#[derive(Debug, Clone, Copy, PartialEq, Eq, Structural)]
pub enum RunPhase {
    /// Between provider requests.
    Pending,
    /// Reading a provider's stream.
    Streaming,
    /// Waiting for the host's choice on a permission request.
    WaitingForPermission,
    /// Cancelled by the host in turn `turn`; not yet reported.
    Cancelled { turn: u64 },
    /// Finished with an output that is not yet reported.
    Finished,
    /// Over: nothing more comes.
    Done,
}

/// What the event loop does in a phase.
#[derive(Debug, Clone, Copy, PartialEq, Eq, Structural)]
pub enum PhaseAction {
    AdvancePending,
    AdvanceStreaming,
    /// Hand the waiting permission request to the host again.
    RepeatPermissionRequest,
    /// Record the cancellation of the turn and report it.
    ReportCancelled { turn: u64 },
    /// Report the finished output.
    ReportDone,
    /// Report nothing: the run is over.
    End,
}

/// The event loop's action in a phase, and the phase it leaves behind: a cancellation and
/// a finished output are reported once, after which the run is over; an over run stays
/// over.
pub open spec fn phase_step_of(phase: RunPhase) -> (RunPhase, PhaseAction) {
    match phase {
        RunPhase::Pending => (RunPhase::Pending, PhaseAction::AdvancePending),
        RunPhase::Streaming => (RunPhase::Streaming, PhaseAction::AdvanceStreaming),
        RunPhase::WaitingForPermission => (RunPhase::WaitingForPermission, PhaseAction::RepeatPermissionRequest),
        RunPhase::Cancelled { turn } => (RunPhase::Done, PhaseAction::ReportCancelled { turn }),
        RunPhase::Finished => (RunPhase::Done, PhaseAction::ReportDone),
        RunPhase::Done => (RunPhase::Done, PhaseAction::End),
    }
}

/// The event loop's action in a phase, and the phase it leaves behind (the advancing
/// actions hand the phase to the step they run).
pub fn phase_step(phase: RunPhase) -> (r: (RunPhase, PhaseAction))
    ensures
        r == phase_step_of(phase),
{
    match phase {
        RunPhase::Pending => (RunPhase::Pending, PhaseAction::AdvancePending),
        RunPhase::Streaming => (RunPhase::Streaming, PhaseAction::AdvanceStreaming),
        RunPhase::WaitingForPermission => (RunPhase::WaitingForPermission, PhaseAction::RepeatPermissionRequest),
        RunPhase::Cancelled { turn } => (RunPhase::Done, PhaseAction::ReportCancelled { turn }),
        RunPhase::Finished => (RunPhase::Done, PhaseAction::ReportDone),
        RunPhase::Done => (RunPhase::Done, PhaseAction::End),
    }
}

/// The actions of `n` steps of the event loop from `phase`, when no step advances.
pub open spec fn phase_actions(phase: RunPhase, n: nat) -> Seq<PhaseAction>
    decreases n,
{
    if n == 0 {
        Seq::empty()
    } else {
        seq![phase_step_of(phase).1] + phase_actions(phase_step_of(phase).0, (n - 1) as nat)
    }
}

/// A cancellation or a finished output is reported exactly once: however many times the
/// event loop runs on, its first step reports it and every later step reports nothing.
pub proof fn law_terminal_report_happens_once(phase: RunPhase, n: nat)
    requires
        phase is Cancelled || phase is Finished,
        n > 0,
    ensures
        phase_actions(phase, n)[0] == phase_step_of(phase).1,
        phase_step_of(phase).1 != PhaseAction::End,
        forall|i: int| 1 <= i < n ==> #[trigger] phase_actions(phase, n)[i] == PhaseAction::End,
{
    law_over_run_stays_over((n - 1) as nat);
    assert(phase_step_of(phase).0 == RunPhase::Done);
    assert forall|i: int| 1 <= i < n implies #[trigger] phase_actions(phase, n)[i] == PhaseAction::End by {
        assert(phase_actions(phase, n)[i] == phase_actions(RunPhase::Done, (n - 1) as nat)[i - 1]);
    }
}

/// An over run stays over: every step of its event loop reports nothing.
pub proof fn law_over_run_stays_over(n: nat)
    ensures
        phase_actions(RunPhase::Done, n).len() == n,
        forall|i: int| 0 <= i < n ==> #[trigger] phase_actions(RunPhase::Done, n)[i] == PhaseAction::End,
    decreases n,
{
    if n > 0 {
        law_over_run_stays_over((n - 1) as nat);
        assert forall|i: int| 0 <= i < n implies #[trigger] phase_actions(RunPhase::Done, n)[i]
            == PhaseAction::End by {
            if i > 0 {
                assert(phase_actions(RunPhase::Done, n)[i] == phase_actions(RunPhase::Done, (n - 1) as nat)[i
                    - 1]);
            }
        }
    }
}

/// What one pre-tool hook answered.
#[derive(Debug, PartialEq, Eq)]
pub struct HookOutcome {
    /// The hook blocks the call.
    pub block: bool,
    /// What the hook wrote to its error output.
    pub stderr: String,
    /// Text the hook adds to the model's context.
    pub additional_context: Option<String>,
    /// Arguments that replace the call's.
    pub updated_args: Option<JsonValue>,
}

/// What the pre-tool hooks decided together.
#[derive(Debug, PartialEq, Eq)]
pub struct HookVerdict {
    /// Why the call is blocked, if a hook blocked it.
    pub block_reason: Option<String>,
    /// The arguments the call runs with.
    pub args: JsonValue,
    /// The context that the hooks before the blocking one (or all of them) added, in order.
    pub added_context: Vec<String>,
}

/// The position of the first blocking hook, if any.
pub open spec fn first_block(results: Seq<HookOutcome>) -> Option<int> {
    if exists|i: int| 0 <= i < results.len() && (#[trigger] results[i]).block {
        Some(
            choose|i: int|
                0 <= i < results.len() && (#[trigger] results[i]).block && forall|k: int|
                    0 <= k < i ==> !(#[trigger] results[k]).block,
        )
    } else {
        None
    }
}

/// The arguments after the first `n` hooks: the last replacement among them, or the call's.
pub open spec fn args_after(results: Seq<HookOutcome>, n: int, args: JsonView) -> JsonView
    decreases n,
{
    if n <= 0 {
        args
    } else {
        match results[n - 1].updated_args {
            Some(a) => a@,
            None => args_after(results, n - 1, args),
        }
    }
}

/// The context that the first `n` hooks add, in order.
pub open spec fn context_after(results: Seq<HookOutcome>, n: int) -> Seq<Seq<char>>
    decreases n,
{
    if n <= 0 {
        Seq::empty()
    } else {
        match results[n - 1].additional_context {
            Some(c) => context_after(results, n - 1).push(c@),
            None => context_after(results, n - 1),
        }
    }
}

/// What the pre-tool hooks decide, in order: the first one that blocks stops the call,
/// with its error output (trailing whitespace cut) as the reason, and the hooks after it
/// count for nothing; each earlier hook adds its context and may replace the arguments.
pub fn fold_pre_hooks(results: &[HookOutcome], args: &JsonValue) -> (v: HookVerdict)
    ensures
        ({
            let n = match first_block(results@) {
                Some(b) => b,
                None => results@.len() as int,
            };
            &&& v.args@ == args_after(results@, n, args@)
            &&& texts(v.added_context@) == context_after(results@, n)
            &&& match first_block(results@) {
                Some(b) => v.block_reason matches Some(r) && r@ == trim_end(results@[b].stderr@),
                None => v.block_reason is None,
            }
        }),
{
    let mut current = args.duplicate();
    let mut added: Vec<String> = Vec::new();
    let mut i: usize = 0;
    while i < results.len()
        invariant
            i <= results@.len(),
            current@ == args_after(results@, i as int, args@),
            texts(added@) == context_after(results@, i as int),
            forall|k: int| 0 <= k < i ==> !(#[trigger] results@[k]).block,
        decreases results@.len() - i,
    {
        let r = &results[i];
        if r.block {
            proof {
                let c = choose|c: int|
                    0 <= c < results@.len() && (#[trigger] results@[c]).block && forall|k: int|
                        0 <= k < c ==> !(#[trigger] results@[k]).block;
                if c < i {
                    assert(!results@[c].block);
                } else if c > i {
                    assert(!results@[i as int].block);
                }
                assert(first_block(results@) == Some(i as int));
            }
            let reason = crate::text::trim_end_str(r.stderr.as_str());
            return HookVerdict { block_reason: Some(reason), args: current, added_context: added };
        }
        match &r.additional_context {
            Some(c) => {
                let ghost before = added@;
                added.push(c.clone());
                proof {
                    assert(texts(added@) =~= texts(before).push(c@));
                }
            },
            None => {},
        }
        match &r.updated_args {
            Some(a) => {
                current = a.duplicate();
            },
            None => {},
        }
        i = i + 1;
    }
    HookVerdict { block_reason: None, args: current, added_context: added }
}

/// What the run does with the call at the front of its queue while it looks for work
/// that needs no provider request.
#[derive(Debug, Clone, Copy, PartialEq, Eq, Structural)]
pub enum QueuedCallStep {
    /// Nothing is queued.
    Idle,
    /// Hand the permission request from before a resume to the host.
    AskResumedPermission,
    /// Leave the call to the step that runs delegations and inline Skill tools.
    LeaveForStep,
    /// Wait: an ordered file tool is still running.
    WaitForOrderedSlot,
    /// Put the call to the permission gate.
    Gate,
}

/// What the run does with the call at the front of its queue (`front_tool`). A resumed
/// permission request comes first. Delegations and offered inline Skill tools are handled
/// by the agent step. A file tool waits while another file tool is active. Every other
/// call goes to the permission gate.
pub open spec fn queued_call_step_of(
    front_tool: Option<Seq<char>>,
    has_resumed_request: bool,
    inline_available: bool,
    ordered_slot_active: bool,
) -> QueuedCallStep {
    match front_tool {
        None => QueuedCallStep::Idle,
        Some(name) => if has_resumed_request {
            QueuedCallStep::AskResumedPermission
        } else if name == "agent"@ || ((name == "list_skills"@ || name == "search_skills"@ || name
            == "use_skill"@) && inline_available) {
            QueuedCallStep::LeaveForStep
        } else if (name == "read_file"@ || name == "edit_file"@ || name == "write_file"@)
            && ordered_slot_active {
            QueuedCallStep::WaitForOrderedSlot
        } else {
            QueuedCallStep::Gate
        },
    }
}

/// What the run does with the call at the front of its queue.
pub fn queued_call_step(
    front_tool: Option<&str>,
    has_resumed_request: bool,
    inline_available: bool,
    ordered_slot_active: bool,
) -> (s: QueuedCallStep)
    ensures
        s == queued_call_step_of(
            match front_tool {
                Some(n) => Some(n@),
                None => None,
            },
            has_resumed_request,
            inline_available,
            ordered_slot_active,
        ),
{
    match front_tool {
        None => QueuedCallStep::Idle,
        Some(name) => if has_resumed_request {
            QueuedCallStep::AskResumedPermission
        } else if same_text(name, "agent") || (crate::tools::is_inline_skill_tool(name)
            && inline_available) {
            QueuedCallStep::LeaveForStep
        } else if requires_ordered_simple_execution(name) && ordered_slot_active {
            QueuedCallStep::WaitForOrderedSlot
        } else {
            QueuedCallStep::Gate
        },
    }
}

/// The message of the error event for a queued call of a tool the run does not know.
pub fn unknown_tool_message(name: &str) -> (r: String)
    ensures
        r@ == "unknown tool: "@ + name@,
{
    let mut r = String::from_str("unknown tool: ");
    r.append(name);
    proof {
        reveal_strlit("unknown tool: ");
    }
    r
}


/// An automatic allowance that the log does not yet record is recorded under the choice
/// its source stands for: a session grant as a grant for the session, a project policy as
/// a project-wide grant, and any other source except the trust posture as a one-off grant.
pub proof fn law_allowance_records_its_source(source: GateSource)
    requires
        source != GateSource::TrustPosture,
    ensures
        gate_action_of(GateDecisionKind::Allow, source, false) == (GateAction::Run {
            record: Some(gate_choice_of(source)),
        }),
        source == GateSource::SessionGrant ==> gate_action_of(GateDecisionKind::Allow, source, false)
            == (GateAction::Run { record: Some(PermissionChoice::Session) }),
        source == GateSource::ProjectPolicy ==> gate_action_of(GateDecisionKind::Allow, source, false)
            == (GateAction::Run { record: Some(PermissionChoice::Project) }),
        source != GateSource::SessionGrant && source != GateSource::ProjectPolicy ==> gate_action_of(
            GateDecisionKind::Allow,
            source,
            false,
        ) == (GateAction::Run { record: Some(PermissionChoice::Once) }),
{
}

} // verus!
