//! What the slot of a delegation does with what its child run reports: forward the
//! child's events, pass on its permission requests, and finish with the child's outcome.

use vstd::prelude::*;

use crate::json::{JsonNumber, JsonValue, JsonView};
use crate::text::{decimal, u64_to_decimal};
use crate::tools::{map_ui_to_tool_event, tool_event_of};
use crate::types::{PermissionRequest, ToolEvent, UiEvent};

verus! {

/// What the slot learns from its child run.
#[derive(Debug, PartialEq, Eq)]
pub enum ChildReport {
    /// The child session could not be started.
    StartFailed,
    /// The host cancelled the delegation.
    Cancelled,
    /// The child run handed out this event.
    Event(UiEvent),
    /// The child run ended without finishing, or failed.
    Ended,
}

/// The final report of a slot.
#[derive(Debug, PartialEq, Eq)]
pub struct SlotDone {
    pub status: String,
    pub summary: String,
    pub model_content: String,
    pub result: Option<JsonValue>,
}

/// What the slot does next.
#[derive(Debug, PartialEq, Eq)]
pub enum AgentSlotAction {
    /// Report the end of the delegation and stop.
    Finish(SlotDone),
    /// Pass the child's permission request to the host and wait for the choice.
    AskPermission(PermissionRequest),
    /// Pass on the child's event.
    Forward(ToolEvent),
    /// Nothing to pass on.
    Skip,
}

/// The record of a finished delegation.
pub open spec fn subagent_record(child_session_id: Seq<char>, turns: u64) -> JsonView {
    JsonView::Object(
        seq![
            ("kind"@, JsonView::String("subagent_result"@)),
            ("child_session_id"@, JsonView::String(child_session_id)),
            ("turns_completed"@, JsonView::Number(crate::json::JsonNumberView::Unsigned(turns))),
        ],
    )
}

/// Whether `d` is the final report with this status, summary and no model content.
pub open spec fn finishes(d: SlotDone, status: Seq<char>, summary: Seq<char>) -> bool {
    d.status@ == status && d.summary@ == summary && d.model_content@.len() == 0
}

fn done(status: &str, summary: String, result: Option<JsonValue>) -> (d: SlotDone)
    ensures
        d.status@ == status@,
        d.summary@ == summary@,
        d.model_content@.len() == 0,
        d.result == result,
{
    SlotDone { status: String::from_str(status), summary, model_content: String::new(), result }
}

/// What the slot of a delegation to `agent_name` does with a report of its child run: a
/// failed start and a premature end finish with an error, a cancellation finishes as
/// cancelled, the child's output finishes the delegation with the number of turns and a
/// record of the child session, a permission request goes to the host, and other events
/// are passed on as tool events when they have one.
pub fn agent_slot_step(agent_name: &str, child_session_id: &str, report: ChildReport) -> (a: AgentSlotAction)
    ensures
        match report {
            ChildReport::StartFailed => a matches AgentSlotAction::Finish(d) && finishes(
                d,
                "error"@,
                agent_name@ + ": failed to start child session"@,
            ) && d.result is None,
            ChildReport::Cancelled => a matches AgentSlotAction::Finish(d) && finishes(
                d,
                "cancelled"@,
                agent_name@ + " cancelled"@,
            ) && d.result is None,
            ChildReport::Ended => a matches AgentSlotAction::Finish(d) && finishes(
                d,
                "error"@,
                agent_name@ + ": stream ended unexpectedly"@,
            ) && d.result is None,
            ChildReport::Event(UiEvent::Done { output, .. }) => a matches AgentSlotAction::Finish(d)
                && finishes(
                d,
                "ok"@,
                agent_name@ + " completed in "@ + decimal(output.turn as nat) + " turns"@,
            ) && (d.result matches Some(r) && r@ == subagent_record(child_session_id@, output.turn)),
            ChildReport::Event(UiEvent::PermissionRequested { request }) => a
                == AgentSlotAction::AskPermission(request),
            ChildReport::Event(e) => match tool_event_of(e) {
                Some(t) => a == AgentSlotAction::Forward(t),
                None => a == AgentSlotAction::Skip,
            },
        },
{
    proof {
        reveal_strlit("error");
        reveal_strlit("cancelled");
        reveal_strlit("ok");
        reveal_strlit(": failed to start child session");
        reveal_strlit(" cancelled");
        reveal_strlit(": stream ended unexpectedly");
        reveal_strlit(" completed in ");
        reveal_strlit(" turns");
    }
    match report {
        ChildReport::StartFailed => {
            let mut s = String::from_str(agent_name);
            s.append(": failed to start child session");
            AgentSlotAction::Finish(done("error", s, None))
        },
        ChildReport::Cancelled => {
            let mut s = String::from_str(agent_name);
            s.append(" cancelled");
            AgentSlotAction::Finish(done("cancelled", s, None))
        },
        ChildReport::Ended => {
            let mut s = String::from_str(agent_name);
            s.append(": stream ended unexpectedly");
            AgentSlotAction::Finish(done("error", s, None))
        },
        ChildReport::Event(UiEvent::Done { output, .. }) => {
            let mut s = String::from_str(agent_name);
            s.append(" completed in ");
            s.append(u64_to_decimal(output.turn).as_str());
            s.append(" turns");
            let record = JsonValue::Object(
                vec![
                    (String::from_str("kind"), JsonValue::String(String::from_str("subagent_result"))),
                    (String::from_str("child_session_id"), JsonValue::String(String::from_str(child_session_id))),
                    (String::from_str("turns_completed"), JsonValue::Number(JsonNumber::Unsigned(output.turn))),
                ],
            );
            proof {
                reveal_with_fuel(crate::json::json_view, 2);
                assert(record@->Object_0 =~= subagent_record(child_session_id@, output.turn)->Object_0);
            }
            AgentSlotAction::Finish(done("ok", s, Some(record)))
        },
        ChildReport::Event(UiEvent::PermissionRequested { request }) => AgentSlotAction::AskPermission(request),
        ChildReport::Event(e) => match map_ui_to_tool_event(e) {
            Some(t) => AgentSlotAction::Forward(t),
            None => AgentSlotAction::Skip,
        },
    }
}

} // verus!
