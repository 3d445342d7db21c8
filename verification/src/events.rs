//! The facts recorded in a session's event log, as the runtime reads them back.

use vstd::prelude::*;

use crate::json::JsonValue;

verus! {

/// One recorded fact of a session.
///
/// `conversation` is `None` or the name of a conversation; `None` stands for the main
/// conversation, whose name is `main`.
#[derive(Debug, PartialEq, Eq)]
pub enum EventPayload {
    SessionCreated { session_id: String },
    TurnStarted { conversation: String, turn: u64 },
    MessageUser {
        conversation: String,
        turn: u64,
        text: String,
        from: Option<String>,
        via_tool_call_id: Option<String>,
    },
    ToolCall {
        turn: u64,
        conversation: Option<String>,
        tool_call_id: String,
        request_id: String,
        index: u64,
        tool: String,
        args: JsonValue,
    },
    PermissionRequested {
        turn: u64,
        tool_call_id: String,
        tool: String,
        risk: String,
        summary: String,
        candidate: String,
        source: String,
    },
    PermissionAllow {
        turn: u64,
        tool_call_id: String,
        tool: String,
        scope: String,
        matcher: String,
        source: String,
    },
    PermissionDeny { turn: u64, tool_call_id: String, tool: String, reason: String, source: String },
    ToolResult {
        turn: u64,
        conversation: Option<String>,
        tool_call_id: String,
        status: String,
        summary: String,
        model_content: String,
        truncated: bool,
    },
    ContextSkills {
        conversation: String,
        turn: u64,
        registry: JsonValue,
        bootstrap_loaded: Vec<String>,
    },
    ModelResponse {
        conversation: Option<String>,
        turn: u64,
        request_id: String,
        input_tokens_total: Option<u32>,
    },
    ModelError { conversation: Option<String>, turn: u64, request_id: String, kind: String },
    ModelRecovery {
        conversation: String,
        turn: u64,
        from_request_id: String,
        to_request_id: String,
    },
    TurnCompleted { conversation: String, turn: u64 },
    TurnCancelled { conversation: String, turn: u64, reason: String },
    TurnInterrupted { conversation: String, turn: u64, reason: String },
    /// A record of the task ledger: a control transaction or an activity batch, with the
    /// task facts it holds in order.
    TaskLedger { record: LedgerRecordKind, facts: Vec<TaskEvent> },
    /// The log's turns from `target_turn` on were rolled back (recorded at `turn`).
    TurnRollback { turn: u64, target_turn: u64 },
    /// `conversation` was rolled back to `to_turn`, dropping its facts from `to_event_id` on.
    ConversationRollback { conversation: String, to_turn: u64, to_event_id: u64 },
    /// The rollback recorded as fact `rollback_event_id` of `conversation` was undone.
    ConversationRollbackUndone { conversation: String, rollback_event_id: u64 },
    /// A fact that none of the decisions here reads.
    Other { kind: String },
}

/// The two kinds of task-ledger record.
#[derive(Debug, Clone, Copy, PartialEq, Eq, Structural)]
pub enum LedgerRecordKind {
    Control,
    Activity,
}

/// The execution that a run, a request or a Skill load belongs to.
#[derive(Debug, Clone, PartialEq, Eq)]
pub struct ExecutionScope {
    pub task_id: String,
    pub workspace_id: String,
    pub run_id: String,
    pub turn_index: u64,
}

/// One provider request of an execution.
#[derive(Debug, Clone, PartialEq, Eq)]
pub struct RequestScope {
    pub execution: ExecutionScope,
    pub request_id: String,
}

/// A run of a task, as the ledger names it.
#[derive(Debug, Clone, PartialEq, Eq)]
pub struct RunRef {
    pub task_id: String,
    pub run_id: String,
}

/// A Skill loaded into an execution.
#[derive(Debug, Clone, PartialEq, Eq)]
pub struct SkillLoaded {
    pub execution: ExecutionScope,
    pub skill_id: String,
    pub source: String,
    pub origin: String,
    pub content_hash: String,
}

/// A fact of the task ledger.
#[derive(Debug, Clone, PartialEq, Eq)]
pub enum TaskEvent {
    TaskCreated { task_id: String, workspace_id: String },
    RunQueued { run: RunRef },
    RunStarted { run: RunRef },
    RunNeedsAttention { run: RunRef },
    RunStopping { run: RunRef },
    RunCompleted { run: RunRef },
    RunStopped { run: RunRef },
    RunFailed { run: RunRef },
    RunInterrupted { run: RunRef },
    RequestStarted { scope: RequestScope },
    SkillLoaded(SkillLoaded),
    ObservationRecorded { scope: RequestScope, observation: String },
    /// A fact that none of the decisions here reads.
    Other { kind: String },
}

/// A fact with its position in the log.
#[derive(Debug, PartialEq, Eq)]
pub struct StoredEvent {
    pub id: u64,
    pub payload: EventPayload,
}

/// The name of the main conversation.
pub open spec fn main_conversation() -> Seq<char> {
    seq!['m', 'a', 'i', 'n']
}

/// The conversation that an optional conversation field names.
pub open spec fn conversation_of(c: Option<String>) -> Seq<char> {
    match c {
        Some(s) => s@,
        None => main_conversation(),
    }
}

/// The name of the main conversation, as a string.
pub fn main_conversation_name() -> (s: String)
    ensures
        s@ == main_conversation(),
{
    let s = String::from_str("main");
    proof {
        reveal_strlit("main");
    }
    s
}

/// Whether an optional conversation field names `conversation`.
pub fn in_conversation(field: &Option<String>, conversation: &str) -> (b: bool)
    ensures
        b == (conversation_of(*field) == conversation@),
{
    let c = crate::text::chars_of(conversation);
    match field {
        Some(s) => {
            let sc = crate::text::chars_of(s.as_str());
            crate::text::chars_eq(&sc, &c)
        },
        None => {
            let m = main_conversation_name();
            let mc = crate::text::chars_of(m.as_str());
            crate::text::chars_eq(&mc, &c)
        },
    }
}

/// Whether two strings hold the same text.
pub fn same_text(a: &str, b: &str) -> (r: bool)
    ensures
        r == (a@ == b@),
{
    let ca = crate::text::chars_of(a);
    let cb = crate::text::chars_of(b);
    crate::text::chars_eq(&ca, &cb)
}


/// The turn a fact belongs to, when it names one.
pub open spec fn payload_turn(p: EventPayload) -> Option<u64> {
    match p {
        EventPayload::TurnStarted { turn, .. } => Some(turn),
        EventPayload::MessageUser { turn, .. } => Some(turn),
        EventPayload::ToolCall { turn, .. } => Some(turn),
        EventPayload::PermissionRequested { turn, .. } => Some(turn),
        EventPayload::PermissionAllow { turn, .. } => Some(turn),
        EventPayload::PermissionDeny { turn, .. } => Some(turn),
        EventPayload::ToolResult { turn, .. } => Some(turn),
        EventPayload::ContextSkills { turn, .. } => Some(turn),
        EventPayload::ModelResponse { turn, .. } => Some(turn),
        EventPayload::ModelError { turn, .. } => Some(turn),
        EventPayload::ModelRecovery { turn, .. } => Some(turn),
        EventPayload::TurnCompleted { turn, .. } => Some(turn),
        EventPayload::TurnCancelled { turn, .. } => Some(turn),
        EventPayload::TurnInterrupted { turn, .. } => Some(turn),
        EventPayload::TurnRollback { turn, .. } => Some(turn),
        _ => None,
    }
}

/// The turn a fact belongs to, when it names one.
pub fn event_turn(p: &EventPayload) -> (r: Option<u64>)
    ensures
        r == payload_turn(*p),
{
    match p {
        EventPayload::TurnStarted { turn, .. } => Some(*turn),
        EventPayload::MessageUser { turn, .. } => Some(*turn),
        EventPayload::ToolCall { turn, .. } => Some(*turn),
        EventPayload::PermissionRequested { turn, .. } => Some(*turn),
        EventPayload::PermissionAllow { turn, .. } => Some(*turn),
        EventPayload::PermissionDeny { turn, .. } => Some(*turn),
        EventPayload::ToolResult { turn, .. } => Some(*turn),
        EventPayload::ContextSkills { turn, .. } => Some(*turn),
        EventPayload::ModelResponse { turn, .. } => Some(*turn),
        EventPayload::ModelError { turn, .. } => Some(*turn),
        EventPayload::ModelRecovery { turn, .. } => Some(*turn),
        EventPayload::TurnCompleted { turn, .. } => Some(*turn),
        EventPayload::TurnCancelled { turn, .. } => Some(*turn),
        EventPayload::TurnInterrupted { turn, .. } => Some(*turn),
        EventPayload::TurnRollback { turn, .. } => Some(*turn),
        _ => None,
    }
}

/// Whether a fact belongs to `conversation`: facts without a conversation field, or with
/// an empty optional one, belong to the main conversation.
pub open spec fn in_conversation_of(p: EventPayload, conversation: Seq<char>) -> bool {
    match p {
        EventPayload::TurnStarted { conversation: c, .. } => c@ == conversation,
        EventPayload::MessageUser { conversation: c, .. } => c@ == conversation,
        EventPayload::ToolCall { conversation: c, .. } => conversation_of(c) == conversation,
        EventPayload::ToolResult { conversation: c, .. } => conversation_of(c) == conversation,
        EventPayload::ContextSkills { conversation: c, .. } => c@ == conversation,
        EventPayload::ModelResponse { conversation: c, .. } => conversation_of(c) == conversation,
        EventPayload::ModelError { conversation: c, .. } => conversation_of(c) == conversation,
        EventPayload::ModelRecovery { conversation: c, .. } => c@ == conversation,
        EventPayload::TurnCompleted { conversation: c, .. } => c@ == conversation,
        EventPayload::TurnCancelled { conversation: c, .. } => c@ == conversation,
        EventPayload::TurnInterrupted { conversation: c, .. } => c@ == conversation,
        EventPayload::ConversationRollback { conversation: c, .. } => c@ == conversation,
        EventPayload::ConversationRollbackUndone { conversation: c, .. } => c@ == conversation,
        _ => main_conversation() == conversation,
    }
}

/// Whether a fact belongs to `conversation`.
pub fn event_in_conversation(p: &EventPayload, conversation: &str) -> (b: bool)
    ensures
        b == in_conversation_of(*p, conversation@),
{
    match p {
        EventPayload::TurnStarted { conversation: c, .. } => same_text(c.as_str(), conversation),
        EventPayload::MessageUser { conversation: c, .. } => same_text(c.as_str(), conversation),
        EventPayload::ToolCall { conversation: c, .. } => in_conversation(c, conversation),
        EventPayload::ToolResult { conversation: c, .. } => in_conversation(c, conversation),
        EventPayload::ContextSkills { conversation: c, .. } => same_text(c.as_str(), conversation),
        EventPayload::ModelResponse { conversation: c, .. } => in_conversation(c, conversation),
        EventPayload::ModelError { conversation: c, .. } => in_conversation(c, conversation),
        EventPayload::ModelRecovery { conversation: c, .. } => same_text(c.as_str(), conversation),
        EventPayload::TurnCompleted { conversation: c, .. } => same_text(c.as_str(), conversation),
        EventPayload::TurnCancelled { conversation: c, .. } => same_text(c.as_str(), conversation),
        EventPayload::TurnInterrupted { conversation: c, .. } => same_text(c.as_str(), conversation),
        EventPayload::ConversationRollback { conversation: c, .. } => same_text(
            c.as_str(),
            conversation,
        ),
        EventPayload::ConversationRollbackUndone { conversation: c, .. } => same_text(
            c.as_str(),
            conversation,
        ),
        _ => {
            let m = main_conversation_name();
            same_text(m.as_str(), conversation)
        },
    }
}

/// Whether fact `u` undoes the rollback recorded as fact `id` of `conversation`.
pub open spec fn undoes(u: EventPayload, conversation: Seq<char>, id: u64) -> bool {
    match u {
        EventPayload::ConversationRollbackUndone { conversation: c, rollback_event_id } => c@
            == conversation && rollback_event_id == id,
        _ => false,
    }
}

/// Whether the fact at position `k` of `events` is a rollback in force: a turn rollback,
/// or a conversation rollback that no later fact undoes.
pub open spec fn is_rollback_in_force(events: Seq<StoredEvent>, k: int) -> bool {
    match events[k].payload {
        EventPayload::TurnRollback { .. } => true,
        EventPayload::ConversationRollback { conversation: c, .. } => !exists|m: int|
            k < m < events.len() && undoes(#[trigger] events[m].payload, c@, events[k].id),
        _ => false,
    }
}

/// Whether rollback `r` removes fact `e` recorded before it: a turn rollback removes the
/// facts of its target turn and later turns; a conversation rollback removes the facts of
/// its conversation from its event id on.
pub open spec fn rollback_removes(r: EventPayload, e: StoredEvent) -> bool {
    match r {
        EventPayload::TurnRollback { target_turn, .. } => match payload_turn(e.payload) {
            Some(t) => t >= target_turn,
            None => false,
        },
        EventPayload::ConversationRollback { conversation: c, to_event_id, .. } => in_conversation_of(
            e.payload,
            c@,
        ) && e.id >= to_event_id,
        _ => false,
    }
}

/// Whether the fact at position `j` was rolled back by a rollback in force after it.
pub open spec fn is_rolled_back(events: Seq<StoredEvent>, j: int) -> bool {
    exists|k: int|
        j < k < events.len() && is_rollback_in_force(events, k) && rollback_removes(
            #[trigger] events[k].payload,
            events[j],
        )
}

/// The positions, in order, of the first `n` facts of `events` that no rollback removed.
pub open spec fn live_positions(events: Seq<StoredEvent>, n: int) -> Seq<int>
    decreases n,
{
    if n <= 0 {
        Seq::empty()
    } else {
        let rest = live_positions(events, n - 1);
        if is_rolled_back(events, n - 1) {
            rest
        } else {
            rest.push(n - 1)
        }
    }
}

/// The facts of the log that no rollback removed, in order.
pub open spec fn live_events(events: Seq<StoredEvent>) -> Seq<StoredEvent> {
    live_positions(events, events.len() as int).map_values(|j: int| events[j])
}

/// Every live position is a position of the log, and they increase.
pub proof fn lemma_live_positions_bounds(events: Seq<StoredEvent>, n: int)
    requires
        0 <= n <= events.len(),
    ensures
        forall|t: int|
            0 <= t < live_positions(events, n).len() ==> 0 <= #[trigger] live_positions(events, n)[t]
                < n,
    decreases n,
{
    if n > 0 {
        lemma_live_positions_bounds(events, n - 1);
        let rest = live_positions(events, n - 1);
        assert forall|t: int| 0 <= t < live_positions(events, n).len() implies 0
            <= #[trigger] live_positions(events, n)[t] < n by {
            if t < rest.len() {
                assert(live_positions(events, n)[t] == rest[t]);
            }
        }
    }
}

/// Whether rollback `r` removes fact `e`.
fn removes(r: &EventPayload, e: &StoredEvent) -> (b: bool)
    ensures
        b == rollback_removes(*r, *e),
{
    match r {
        EventPayload::TurnRollback { target_turn, .. } => match event_turn(&e.payload) {
            Some(t) => t >= *target_turn,
            None => false,
        },
        EventPayload::ConversationRollback { conversation: c, to_event_id, .. } => event_in_conversation(
            &e.payload,
            c.as_str(),
        ) && e.id >= *to_event_id,
        _ => false,
    }
}

/// The positions of the rollbacks in force, in increasing order.
fn rollbacks_in_force(events: &[StoredEvent]) -> (r: Vec<usize>)
    ensures
        forall|a: int, b: int| 0 <= a < b < r@.len() ==> r@[a] < r@[b],
        forall|a: int| 0 <= a < r@.len() ==> (#[trigger] r@[a]) < events@.len(),
        forall|a: int| 0 <= a < r@.len() ==> is_rollback_in_force(events@, #[trigger] r@[a] as int),
        forall|k: int|
            0 <= k < events@.len() && is_rollback_in_force(events@, k) ==> r@.contains(k as usize),
{
    let mut r: Vec<usize> = Vec::new();
    let mut k: usize = 0;
    while k < events.len()
        invariant
            k <= events@.len(),
            forall|a: int, b: int| 0 <= a < b < r@.len() ==> r@[a] < r@[b],
            forall|a: int| 0 <= a < r@.len() ==> (#[trigger] r@[a]) < k,
            forall|a: int| 0 <= a < r@.len() ==> is_rollback_in_force(events@, #[trigger] r@[a] as int),
            forall|q: int| 0 <= q < k && is_rollback_in_force(events@, q) ==> r@.contains(q as usize),
        decreases events@.len() - k,
    {
        let in_force = match &events[k].payload {
            EventPayload::TurnRollback { .. } => true,
            EventPayload::ConversationRollback { conversation: c, .. } => {
                let id = events[k].id;
                let mut undone = false;
                let mut m: usize = k + 1;
                while m < events.len()
                    invariant
                        k < m <= events@.len(),
                        events@[k as int].payload matches EventPayload::ConversationRollback { conversation: c2, .. } && c2@ == c@,
                        id == events@[k as int].id,
                        undone == exists|q: int| k < q < m && undoes(#[trigger] events@[q].payload, c@, id),
                    decreases events@.len() - m,
                {
                    let u = match &events[m].payload {
                        EventPayload::ConversationRollbackUndone { conversation: c3, rollback_event_id } => *rollback_event_id == id && same_text(c3.as_str(), c.as_str()),
                        _ => false,
                    };
                    proof {
                        assert(u == undoes(events@[m as int].payload, c@, id));
                    }
                    if u {
                        undone = true;
                    }
                    m = m + 1;
                }
                !undone
            },
            _ => false,
        };
        let ghost old_r = r@;
        proof {
            assert(in_force == is_rollback_in_force(events@, k as int));
        }
        if in_force {
            r.push(k);
        }
        proof {
            assert forall|q: int| 0 <= q < k + 1 && is_rollback_in_force(events@, q) implies r@.contains(q as usize) by {
                if q < k {
                    assert(old_r.contains(q as usize));
                    let a = choose|a: int| 0 <= a < old_r.len() && old_r[a] == q as usize;
                    assert(r@[a] == q as usize);
                } else {
                    assert(r@[r@.len() - 1] == k);
                }
            }
        }
        k = k + 1;
    }
    r
}

/// For each fact of `events`, whether a rollback removed it.
pub fn rolled_back_flags(events: &[StoredEvent]) -> (r: Vec<bool>)
    ensures
        r@.len() == events@.len(),
        forall|j: int| 0 <= j < events@.len() ==> r@[j] == is_rolled_back(events@, j),
{
    let force = rollbacks_in_force(events);
    let mut out: Vec<bool> = Vec::new();
    let mut j: usize = 0;
    while j < events.len()
        invariant
            j <= events@.len(),
            out@.len() == j,
            forall|a: int| 0 <= a < force@.len() ==> (#[trigger] force@[a]) < events@.len(),
            forall|a: int| 0 <= a < force@.len() ==> is_rollback_in_force(events@, #[trigger] force@[a] as int),
            forall|k: int|
                0 <= k < events@.len() && is_rollback_in_force(events@, k) ==> force@.contains(k as usize),
            forall|q: int| 0 <= q < j ==> out@[q] == is_rolled_back(events@, q),
        decreases events@.len() - j,
    {
        let mut gone = false;
        let mut t: usize = 0;
        while t < force.len()
            invariant
                j < events@.len(),
                t <= force@.len(),
                forall|a: int| 0 <= a < force@.len() ==> (#[trigger] force@[a]) < events@.len(),
                forall|a: int| 0 <= a < force@.len() ==> is_rollback_in_force(events@, #[trigger] force@[a] as int),
                gone == exists|a: int|
                    0 <= a < t && j < force@[a] && rollback_removes(
                        #[trigger] events@[force@[a] as int].payload,
                        events@[j as int],
                    ),
            decreases force@.len() - t,
        {
            let k = force[t];
            if j < k && removes(&events[k].payload, &events[j]) {
                gone = true;
            }
            t = t + 1;
        }
        proof {
            if gone {
                let a = choose|a: int|
                    0 <= a < force@.len() && j < force@[a] && rollback_removes(
                        #[trigger] events@[force@[a] as int].payload,
                        events@[j as int],
                    );
                let k = force@[a] as int;
                assert(j < k < events@.len() && is_rollback_in_force(events@, k) && rollback_removes(
                    events@[k].payload,
                    events@[j as int],
                ));
                assert(is_rolled_back(events@, j as int));
            } else {
                if is_rolled_back(events@, j as int) {
                    let k = choose|k: int|
                        j < k < events@.len() && is_rollback_in_force(events@, k) && rollback_removes(
                            #[trigger] events@[k].payload,
                            events@[j as int],
                        );
                    assert(force@.contains(k as usize));
                    let a = choose|a: int| 0 <= a < force@.len() && force@[a] == k as usize;
                    assert(rollback_removes(events@[force@[a] as int].payload, events@[j as int]));
                    assert(false);
                }
            }
        }
        out.push(gone);
        j = j + 1;
    }
    out
}

/// The positions, in order, of the facts of `events` that no rollback removed.
pub fn live_event_positions(events: &[StoredEvent]) -> (r: Vec<usize>)
    ensures
        r@.map_values(|j: usize| j as int) == live_positions(events@, events@.len() as int),
{
    let flags = rolled_back_flags(events);
    let mut out: Vec<usize> = Vec::new();
    let mut j: usize = 0;
    while j < events.len()
        invariant
            j <= events@.len(),
            flags@.len() == events@.len(),
            forall|q: int| 0 <= q < events@.len() ==> flags@[q] == is_rolled_back(events@, q),
            out@.map_values(|q: usize| q as int) == live_positions(events@, j as int),
        decreases events@.len() - j,
    {
        if !flags[j] {
            out.push(j);
            proof {
                assert(out@.map_values(|q: usize| q as int) =~= live_positions(events@, j as int).push(
                    j as int,
                ));
            }
        }
        j = j + 1;
    }
    out
}


/// Whether a fact is a rollback or undoes one.
pub open spec fn is_rollback_fact(p: EventPayload) -> bool {
    p is TurnRollback || p is ConversationRollback || p is ConversationRollbackUndone
}

/// Appending a fact that neither rolls back nor undoes leaves every earlier fact as live as
/// it was, and the new fact is live.
pub proof fn lemma_live_events_push(events: Seq<StoredEvent>, e: StoredEvent)
    requires
        !is_rollback_fact(e.payload),
    ensures
        live_events(events.push(e)) == live_events(events).push(e),
{
    let ev2 = events.push(e);
    let n = events.len() as int;
    assert forall|k: int| 0 <= k < n implies is_rollback_in_force(ev2, k) == is_rollback_in_force(
        events,
        k,
    ) by {
        assert(ev2[k] == events[k]);
        match events[k].payload {
            EventPayload::ConversationRollback { conversation: c, .. } => {
                if exists|m: int| k < m < ev2.len() && undoes(#[trigger] ev2[m].payload, c@, ev2[k].id) {
                    let m = choose|m: int| k < m < ev2.len() && undoes(#[trigger] ev2[m].payload, c@, ev2[k].id);
                    if m == n {
                        assert(ev2[m] == e);
                        assert(false);
                    }
                    assert(ev2[m] == events[m]);
                    assert(undoes(events[m].payload, c@, events[k].id));
                }
                if exists|m: int| k < m < events.len() && undoes(#[trigger] events[m].payload, c@, events[k].id) {
                    let m = choose|m: int| k < m < events.len() && undoes(#[trigger] events[m].payload, c@, events[k].id);
                    assert(ev2[m] == events[m]);
                    assert(undoes(ev2[m].payload, c@, ev2[k].id));
                }
            },
            _ => {},
        }
    }
    assert(ev2[n] == e);
    assert(!is_rollback_in_force(ev2, n));
    assert forall|j: int| 0 <= j < n implies is_rolled_back(ev2, j) == is_rolled_back(events, j) by {
        assert(ev2[j] == events[j]);
        if is_rolled_back(ev2, j) {
            let k = choose|k: int|
                j < k < ev2.len() && is_rollback_in_force(ev2, k) && rollback_removes(
                    #[trigger] ev2[k].payload,
                    ev2[j],
                );
            assert(k != n);
            assert(ev2[k] == events[k]);
            assert(is_rollback_in_force(events, k) && rollback_removes(events[k].payload, events[j]));
        }
        if is_rolled_back(events, j) {
            let k = choose|k: int|
                j < k < events.len() && is_rollback_in_force(events, k) && rollback_removes(
                    #[trigger] events[k].payload,
                    events[j],
                );
            assert(ev2[k] == events[k]);
            assert(is_rollback_in_force(ev2, k) && rollback_removes(ev2[k].payload, ev2[j]));
        }
    }
    assert(!is_rolled_back(ev2, n));
    lemma_live_positions_prefix(events, e, n);
    let p = live_positions(events, n);
    assert(live_positions(ev2, n + 1) == p.push(n));
    lemma_live_positions_bounds(events, n);
    let l2 = live_positions(ev2, n + 1).map_values(|j: int| ev2[j]);
    let l1 = p.map_values(|j: int| events[j]);
    assert forall|a: int| 0 <= a < l2.len() implies l2[a] == l1.push(e)[a] by {
        if a < p.len() {
            assert(0 <= p[a] < n);
            assert(ev2[p[a]] == events[p[a]]);
        }
    }
    assert(l2 =~= l1.push(e));
}

proof fn lemma_live_positions_prefix(events: Seq<StoredEvent>, e: StoredEvent, t: int)
    requires
        0 <= t <= events.len(),
        forall|j: int|
            0 <= j < events.len() ==> is_rolled_back(events.push(e), j) == is_rolled_back(events, j),
    ensures
        live_positions(events.push(e), t) == live_positions(events, t),
    decreases t,
{
    if t > 0 {
        lemma_live_positions_prefix(events, e, t - 1);
    }
}

} // verus!
