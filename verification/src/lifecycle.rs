//! Reduction of a session's log to the tool calls that are still open.
//!
//! Every tool call is tracked from its first `ToolCall` fact: a permission request,
//! a grant, a refusal and a result update it. A call with a result is closed. Of the
//! others, a refused call, a granted call and a call that never asked for permission
//! are open tools; a call that asked and got no answer awaits a permission decision.
//! Both lists come out ordered by turn, then index, then identifier.

use vstd::prelude::*;

use crate::events::{
    conversation_of, lemma_live_positions_bounds, live_event_positions, live_events,
    live_positions, EventPayload, StoredEvent,
};
use crate::json::{JsonValue, JsonView};
use crate::text::{chars_eq, chars_of, seq_lt, string_less};
use crate::types::{PermissionRequest, PermissionRequestView, ProviderToolCall, ToolCallView};

verus! {

/// Why a tool call without a result is still open.
#[derive(Debug, Clone, Copy, PartialEq, Eq, Structural)]
pub enum OpenToolKind {
    AllowedWithoutResult,
    DeniedWithoutResult,
    Interrupted,
}

/// A tool call that has no result and awaits no permission decision.
#[derive(Debug, PartialEq, Eq)]
pub struct OpenToolLifecycle {
    pub tool_call: ProviderToolCall,
    pub conversation: Option<String>,
    pub kind: OpenToolKind,
    pub turn: u64,
}

/// A tool call whose permission request has not been answered.
#[derive(Debug, PartialEq, Eq)]
pub struct PendingPermissionLifecycle {
    pub tool_call: ProviderToolCall,
    pub conversation: Option<String>,
    pub request: PermissionRequest,
    pub turn: u64,
}

/// The open tool calls of a session.
#[derive(Debug, PartialEq, Eq)]
pub struct LifecycleState {
    pub open_tools: Vec<OpenToolLifecycle>,
    pub pending_permissions: Vec<PendingPermissionLifecycle>,
}

/// What the log says of one tool call.
pub struct LifeView {
    pub call: ToolCallView,
    pub conversation: Seq<char>,
    pub turn: u64,
    pub request: Option<PermissionRequestView>,
    pub allowed: bool,
    pub denied: bool,
    pub has_result: bool,
}

/// The effect of one fact on the tracked tool calls, keyed by tool call identifier.
pub open spec fn life_step(m: Map<Seq<char>, LifeView>, p: EventPayload) -> Map<Seq<char>, LifeView> {
    match p {
        EventPayload::ToolCall { turn, conversation, tool_call_id, index, tool, args, .. } => {
            if m.dom().contains(tool_call_id@) {
                m
            } else {
                m.insert(
                    tool_call_id@,
                    LifeView {
                        call: ToolCallView {
                            id: tool_call_id@,
                            name: tool@,
                            args: args@,
                            index: index,
                        },
                        conversation: conversation_of(conversation),
                        turn: turn,
                        request: None,
                        allowed: false,
                        denied: false,
                        has_result: false,
                    },
                )
            }
        },
        EventPayload::PermissionRequested {
            turn,
            tool_call_id,
            tool,
            risk,
            summary,
            candidate,
            source,
        } => {
            if m.dom().contains(tool_call_id@) {
                let old = m[tool_call_id@];
                m.insert(
                    tool_call_id@,
                    LifeView {
                        request: Some(
                            PermissionRequestView {
                                id: tool_call_id@,
                                tool_call_id: tool_call_id@,
                                tool: tool@,
                                risk: risk@,
                                summary: summary@,
                                candidate: candidate@,
                                source: source@,
                            },
                        ),
                        turn: turn,
                        ..old
                    },
                )
            } else {
                m
            }
        },
        EventPayload::PermissionAllow { tool_call_id, .. } => {
            if m.dom().contains(tool_call_id@) {
                m.insert(tool_call_id@, LifeView { allowed: true, ..m[tool_call_id@] })
            } else {
                m
            }
        },
        EventPayload::PermissionDeny { tool_call_id, .. } => {
            if m.dom().contains(tool_call_id@) {
                m.insert(tool_call_id@, LifeView { denied: true, ..m[tool_call_id@] })
            } else {
                m
            }
        },
        EventPayload::ToolResult { tool_call_id, .. } => {
            if m.dom().contains(tool_call_id@) {
                m.insert(tool_call_id@, LifeView { has_result: true, ..m[tool_call_id@] })
            } else {
                m
            }
        },
        _ => m,
    }
}

/// The tracked tool calls after the facts `events`, in order.
pub open spec fn life_map(events: Seq<StoredEvent>) -> Map<Seq<char>, LifeView>
    decreases events.len(),
{
    if events.len() == 0 {
        Map::empty()
    } else {
        life_step(life_map(events.drop_last()), events.last().payload)
    }
}

/// The order of the output: by turn, then by index, then by identifier.
pub open spec fn key_lt(t1: u64, i1: u64, id1: Seq<char>, t2: u64, i2: u64, id2: Seq<char>) -> bool {
    t1 < t2 || (t1 == t2 && (i1 < i2 || (i1 == i2 && seq_lt(id1, id2))))
}

/// The kind of open tool that a tracked call is, if it is one.
pub open spec fn open_kind(l: LifeView) -> Option<OpenToolKind> {
    if l.has_result {
        None
    } else if l.denied {
        Some(OpenToolKind::DeniedWithoutResult)
    } else if l.allowed {
        Some(OpenToolKind::AllowedWithoutResult)
    } else if l.request is None {
        Some(OpenToolKind::Interrupted)
    } else {
        None
    }
}

/// Whether a tracked call awaits a permission decision.
pub open spec fn is_pending(l: LifeView) -> bool {
    !l.has_result && !l.denied && !l.allowed && l.request is Some
}

impl OpenToolLifecycle {
    /// The key by which open tools are ordered.
    pub open spec fn key_lt(&self, other: &OpenToolLifecycle) -> bool {
        key_lt(
            self.turn,
            self.tool_call.index,
            self.tool_call.id@,
            other.turn,
            other.tool_call.index,
            other.tool_call.id@,
        )
    }
}

impl PendingPermissionLifecycle {
    /// The key by which pending permissions are ordered.
    pub open spec fn key_lt(&self, other: &PendingPermissionLifecycle) -> bool {
        key_lt(
            self.turn,
            self.tool_call.index,
            self.tool_call.id@,
            other.turn,
            other.tool_call.index,
            other.tool_call.id@,
        )
    }
}

/// Whether `state` is exactly what the tracked calls `m` leave open, in order.
pub open spec fn state_reflects(state: LifecycleState, m: Map<Seq<char>, LifeView>) -> bool {
    let open = state.open_tools@;
    let pending = state.pending_permissions@;
    &&& forall|a: int, b: int|
        #![trigger open[a], open[b]]
        0 <= a < b < open.len() ==> open[a].key_lt(&open[b])
    &&& forall|a: int, b: int|
        #![trigger pending[a], pending[b]]
        0 <= a < b < pending.len() ==> pending[a].key_lt(&pending[b])
    &&& forall|a: int|
        0 <= a < open.len() ==> {
            let o = #[trigger] open[a];
            &&& m.dom().contains(o.tool_call.id@)
            &&& open_kind(m[o.tool_call.id@]) == Some(o.kind)
            &&& o.tool_call@ == m[o.tool_call.id@].call
            &&& conversation_of(o.conversation) == m[o.tool_call.id@].conversation
            &&& o.turn == m[o.tool_call.id@].turn
        }
    &&& forall|a: int|
        0 <= a < pending.len() ==> {
            let p = #[trigger] pending[a];
            &&& m.dom().contains(p.tool_call.id@)
            &&& is_pending(m[p.tool_call.id@])
            &&& p.tool_call@ == m[p.tool_call.id@].call
            &&& conversation_of(p.conversation) == m[p.tool_call.id@].conversation
            &&& Some(p.request@) == m[p.tool_call.id@].request
            &&& p.turn == m[p.tool_call.id@].turn
        }
    &&& forall|k: Seq<char>|
        #![trigger m.dom().contains(k)]
        m.dom().contains(k) && open_kind(m[k]) is Some ==> exists|a: int|
            0 <= a < open.len() && (#[trigger] open[a]).tool_call.id@ == k
    &&& forall|k: Seq<char>|
        #![trigger m.dom().contains(k)]
        m.dom().contains(k) && is_pending(m[k]) ==> exists|a: int|
            0 <= a < pending.len() && (#[trigger] pending[a]).tool_call.id@ == k
}

/// One tracked tool call during the reduction.
struct ToolLifecycle {
    tool_call: ProviderToolCall,
    conversation: Option<String>,
    turn: u64,
    permission_request: Option<PermissionRequest>,
    permission_allowed: bool,
    permission_denied: bool,
    has_result: bool,
}

impl ToolLifecycle {
    spec fn view(&self) -> LifeView {
        LifeView {
            call: self.tool_call@,
            conversation: conversation_of(self.conversation),
            turn: self.turn,
            request: match self.permission_request {
                Some(r) => Some(r@),
                None => None,
            },
            allowed: self.permission_allowed,
            denied: self.permission_denied,
            has_result: self.has_result,
        }
    }

    spec fn id(&self) -> Seq<char> {
        self.tool_call.id@
    }

    spec fn lt(&self, other: &ToolLifecycle) -> bool {
        key_lt(
            self.turn,
            self.tool_call.index,
            self.tool_call.id@,
            other.turn,
            other.tool_call.index,
            other.tool_call.id@,
        )
    }
}

/// `tools` holds one entry per tracked call of `m`, each with its value in `m`.
spec fn tools_match(tools: Seq<ToolLifecycle>, m: Map<Seq<char>, LifeView>) -> bool {
    &&& forall|a: int, b: int|
        0 <= a < tools.len() && 0 <= b < tools.len() && a != b ==> (#[trigger] tools[a]).id()
            != (#[trigger] tools[b]).id()
    &&& forall|a: int|
        0 <= a < tools.len() ==> m.dom().contains((#[trigger] tools[a]).id()) && m[tools[a].id()]
            == tools[a].view() && tools[a].view().call.id == tools[a].id()
    &&& forall|k: Seq<char>|
        #![trigger m.dom().contains(k)]
        m.dom().contains(k) ==> exists|a: int| 0 <= a < tools.len() && (#[trigger] tools[a]).id() == k
}

/// The position of the tracked call `id`, if it is tracked.
fn find_tool(tools: &Vec<ToolLifecycle>, id: &str) -> (r: Option<usize>)
    ensures
        r matches Some(a) ==> a < tools@.len() && tools@[a as int].id() == id@,
        r is None ==> forall|a: int| 0 <= a < tools@.len() ==> (#[trigger] tools@[a]).id() != id@,
{
    let key = chars_of(id);
    let mut i: usize = 0;
    while i < tools.len()
        invariant
            i <= tools@.len(),
            key@ == id@,
            forall|a: int| 0 <= a < i ==> (#[trigger] tools@[a]).id() != id@,
        decreases tools@.len() - i,
    {
        let other = chars_of(tools[i].tool_call.id.as_str());
        if chars_eq(&other, &key) {
            return Some(i);
        }
        i = i + 1;
    }
    None
}

proof fn lemma_life_map_step(events: Seq<StoredEvent>, i: int)
    requires
        0 <= i < events.len(),
    ensures
        life_map(events.subrange(0, i + 1)) == life_step(
            life_map(events.subrange(0, i)),
            events[i].payload,
        ),
{
    let s = events.subrange(0, i + 1);
    assert(s.drop_last() =~= events.subrange(0, i));
    assert(s.last() == events[i]);
}

/// Applies one fact to the tracked calls.
fn apply_event(tools: &mut Vec<ToolLifecycle>, payload: &EventPayload, Ghost(m): Ghost<
    Map<Seq<char>, LifeView>,
>)
    requires
        tools_match(old(tools)@, m),
    ensures
        tools_match(final(tools)@, life_step(m, *payload)),
{
    match payload {
        EventPayload::ToolCall { turn, conversation, tool_call_id, index, tool, args, .. } => {
            match find_tool(tools, tool_call_id.as_str()) {
                Some(_) => {},
                None => {
                    let entry = ToolLifecycle {
                        tool_call: ProviderToolCall {
                            id: tool_call_id.clone(),
                            name: tool.clone(),
                            args: args.duplicate(),
                            index: *index,
                        },
                        conversation: conversation.clone(),
                        turn: *turn,
                        permission_request: None,
                        permission_allowed: false,
                        permission_denied: false,
                        has_result: false,
                    };
                    let ghost nm = life_step(m, *payload);
                    let ghost before = tools@;
                    tools.push(entry);
                    proof {
                        assert(tools@[before.len() as int] == entry);
                        assert(conversation_of(entry.conversation) == conversation_of(*conversation));
                        assert forall|k: Seq<char>| #[trigger] nm.dom().contains(k) implies exists|
                            a: int,
                        | 0 <= a < tools@.len() && (#[trigger] tools@[a]).id() == k by {
                            if k == tool_call_id@ {
                                assert(tools@[before.len() as int].id() == k);
                            } else {
                                assert(m.dom().contains(k));
                                let a = choose|a: int| 0 <= a < before.len() && (#[trigger] before[a]).id() == k;
                                assert(tools@[a] == before[a]);
                            }
                        }
                    }
                },
            }
        },
        EventPayload::PermissionRequested {
            turn,
            tool_call_id,
            tool,
            risk,
            summary,
            candidate,
            source,
        } => {
            match find_tool(tools, tool_call_id.as_str()) {
                Some(a) => {
                    let ghost before = tools@;
                    let mut entry = tools.remove(a);
                    entry.permission_request = Some(
                        PermissionRequest {
                            id: tool_call_id.clone(),
                            tool_call_id: tool_call_id.clone(),
                            tool: tool.clone(),
                            risk: risk.clone(),
                            summary: summary.clone(),
                            candidate: candidate.clone(),
                            source: source.clone(),
                        },
                    );
                    entry.turn = *turn;
                    tools.insert(a, entry);
                    proof {
                        lemma_replace_keeps_match(before, tools@, a as int, m, life_step(m, *payload));
                    }
                },
                None => {
                    proof {
                        assert(!m.dom().contains(tool_call_id@)) by {
                            if m.dom().contains(tool_call_id@) {
                                let b = choose|b: int| 0 <= b < tools@.len() && (#[trigger] tools@[b]).id() == tool_call_id@;
                            }
                        }
                    }
                },
            }
        },
        EventPayload::PermissionAllow { tool_call_id, .. } => {
            match find_tool(tools, tool_call_id.as_str()) {
                Some(a) => {
                    let ghost before = tools@;
                    let mut entry = tools.remove(a);
                    entry.permission_allowed = true;
                    tools.insert(a, entry);
                    proof {
                        lemma_replace_keeps_match(before, tools@, a as int, m, life_step(m, *payload));
                    }
                },
                None => {
                    proof {
                        assert(!m.dom().contains(tool_call_id@)) by {
                            if m.dom().contains(tool_call_id@) {
                                let b = choose|b: int| 0 <= b < tools@.len() && (#[trigger] tools@[b]).id() == tool_call_id@;
                            }
                        }
                    }
                },
            }
        },
        EventPayload::PermissionDeny { tool_call_id, .. } => {
            match find_tool(tools, tool_call_id.as_str()) {
                Some(a) => {
                    let ghost before = tools@;
                    let mut entry = tools.remove(a);
                    entry.permission_denied = true;
                    tools.insert(a, entry);
                    proof {
                        lemma_replace_keeps_match(before, tools@, a as int, m, life_step(m, *payload));
                    }
                },
                None => {
                    proof {
                        assert(!m.dom().contains(tool_call_id@)) by {
                            if m.dom().contains(tool_call_id@) {
                                let b = choose|b: int| 0 <= b < tools@.len() && (#[trigger] tools@[b]).id() == tool_call_id@;
                            }
                        }
                    }
                },
            }
        },
        EventPayload::ToolResult { tool_call_id, .. } => {
            match find_tool(tools, tool_call_id.as_str()) {
                Some(a) => {
                    let ghost before = tools@;
                    let mut entry = tools.remove(a);
                    entry.has_result = true;
                    tools.insert(a, entry);
                    proof {
                        lemma_replace_keeps_match(before, tools@, a as int, m, life_step(m, *payload));
                    }
                },
                None => {
                    proof {
                        assert(!m.dom().contains(tool_call_id@)) by {
                            if m.dom().contains(tool_call_id@) {
                                let b = choose|b: int| 0 <= b < tools@.len() && (#[trigger] tools@[b]).id() == tool_call_id@;
                            }
                        }
                    }
                },
            }
        },
        _ => {},
    }
}

/// Replacing the entry at `a` by one with the same identifier and the new value of
/// that identifier keeps the correspondence.
proof fn lemma_replace_keeps_match(
    before: Seq<ToolLifecycle>,
    after: Seq<ToolLifecycle>,
    a: int,
    m: Map<Seq<char>, LifeView>,
    nm: Map<Seq<char>, LifeView>,
)
    requires
        tools_match(before, m),
        0 <= a < before.len(),
        after.len() == before.len(),
        forall|b: int| 0 <= b < before.len() && b != a ==> after[b] == before[b],
        after[a].id() == before[a].id(),
        after[a].view().call.id == after[a].id(),
        nm == m.insert(before[a].id(), after[a].view()),
    ensures
        tools_match(after, nm),
{
    assert forall|b: int, c: int|
        0 <= b < after.len() && 0 <= c < after.len() && b != c implies (#[trigger] after[b]).id()
        != (#[trigger] after[c]).id() by {
        assert(before[b].id() != before[c].id());
    }
    assert forall|b: int| 0 <= b < after.len() implies nm.dom().contains(
        (#[trigger] after[b]).id(),
    ) && nm[after[b].id()] == after[b].view() && after[b].view().call.id == after[b].id() by {
        if b != a {
            assert(before[b].id() != before[a].id());
        }
    }
    assert forall|k: Seq<char>| #[trigger] nm.dom().contains(k) implies exists|b: int|
        0 <= b < after.len() && (#[trigger] after[b]).id() == k by {
        assert(m.dom().contains(k));
        let b = choose|b: int| 0 <= b < before.len() && (#[trigger] before[b]).id() == k;
        if b == a {
            assert(after[a].id() == k);
        } else {
            assert(after[b] == before[b]);
        }
    }
}

/// Whether `a` precedes `b` in the output order.
fn precedes(a: &ToolLifecycle, b: &ToolLifecycle) -> (r: bool)
    ensures
        r == a.lt(b),
{
    if a.turn != b.turn {
        return a.turn < b.turn;
    }
    if a.tool_call.index != b.tool_call.index {
        return a.tool_call.index < b.tool_call.index;
    }
    string_less(&a.tool_call.id, &b.tool_call.id)
}

/// Two tracked calls with different identifiers are ordered one way or the other.
proof fn lemma_lt_total(a: ToolLifecycle, b: ToolLifecycle)
    requires
        a.id() != b.id(),
    ensures
        a.lt(&b) || b.lt(&a),
{
    crate::text::lemma_seq_lt_total(a.tool_call.id@, b.tool_call.id@);
}

/// Orders the tracked calls by turn, index and identifier.
fn sort_tools(tools: Vec<ToolLifecycle>, Ghost(m): Ghost<Map<Seq<char>, LifeView>>) -> (sorted: Vec<
    ToolLifecycle,
>)
    requires
        tools_match(tools@, m),
    ensures
        forall|a: int| 0 <= a < sorted@.len() ==> m.dom().contains((#[trigger] sorted@[a]).id())
            && m[sorted@[a].id()] == sorted@[a].view() && sorted@[a].view().call.id == sorted@[a].id(),
        forall|k: Seq<char>|
            #![trigger m.dom().contains(k)]
            m.dom().contains(k) ==> exists|a: int| 0 <= a < sorted@.len() && (#[trigger] sorted@[a]).id() == k,
        forall|a: int, b: int|
            #![trigger sorted@[a], sorted@[b]]
            0 <= a < b < sorted@.len() ==> sorted@[a].lt(&sorted@[b]),
{
    let mut rest = tools;
    let mut sorted: Vec<ToolLifecycle> = Vec::new();
    while rest.len() > 0
        invariant
            forall|a: int, b: int|
                0 <= a < rest@.len() && 0 <= b < rest@.len() && a != b ==> (#[trigger] rest@[a]).id()
                    != (#[trigger] rest@[b]).id(),
            forall|a: int, b: int|
                0 <= a < rest@.len() && 0 <= b < sorted@.len() ==> (#[trigger] rest@[a]).id()
                    != (#[trigger] sorted@[b]).id(),
            forall|a: int| 0 <= a < rest@.len() ==> m.dom().contains((#[trigger] rest@[a]).id())
                && m[rest@[a].id()] == rest@[a].view() && rest@[a].view().call.id == rest@[a].id(),
            forall|a: int| 0 <= a < sorted@.len() ==> m.dom().contains((#[trigger] sorted@[a]).id())
                && m[sorted@[a].id()] == sorted@[a].view() && sorted@[a].view().call.id
                == sorted@[a].id(),
            forall|k: Seq<char>|
                #![trigger m.dom().contains(k)]
                m.dom().contains(k) ==> (exists|a: int| 0 <= a < rest@.len() && (#[trigger] rest@[a]).id() == k)
                    || (exists|a: int| 0 <= a < sorted@.len() && (#[trigger] sorted@[a]).id() == k),
            forall|a: int, b: int|
                #![trigger sorted@[a], sorted@[b]]
                0 <= a < b < sorted@.len() ==> sorted@[a].lt(&sorted@[b]),
        decreases rest@.len(),
    {
        let ghost old_rest = rest@;
        let ghost old_sorted = sorted@;
        let x = rest.pop().unwrap();
        proof {
            assert(x == old_rest[old_rest.len() - 1]);
            assert forall|b: int| 0 <= b < old_sorted.len() implies x.id() != (#[trigger] old_sorted[b]).id() by {
                assert(old_rest[old_rest.len() - 1].id() != old_sorted[b].id());
            }
        }
        let mut p: usize = 0;
        while p < sorted.len() && !precedes(&x, &sorted[p])
            invariant
                p <= sorted@.len(),
                sorted@ == old_sorted,
                forall|b: int| 0 <= b < old_sorted.len() ==> x.id() != (#[trigger] old_sorted[b]).id(),
                forall|q: int| 0 <= q < p ==> (#[trigger] sorted@[q]).lt(&x),
            decreases sorted@.len() - p,
        {
            proof {
                lemma_lt_total(x, sorted@[p as int]);
            }
            p = p + 1;
        }
        proof {
            if p < old_sorted.len() {
                assert(x.lt(&old_sorted[p as int]));
            }
        }
        sorted.insert(p, x);
        proof {
            let ns = sorted@;
            assert(ns == old_sorted.insert(p as int, x));
            assert forall|a: int, b: int|
                #![trigger ns[a], ns[b]]
                0 <= a < b < ns.len() implies ns[a].lt(&ns[b]) by {
                if b < p {
                    assert(ns[a] == old_sorted[a] && ns[b] == old_sorted[b]);
                } else if b == p {
                    assert(ns[a] == old_sorted[a]);
                } else if a < p {
                    assert(ns[a] == old_sorted[a] && ns[b] == old_sorted[b - 1]);
                    assert(old_sorted[a].lt(&x));
                    assert(x.lt(&old_sorted[p as int]));
                    if b - 1 > p {
                        assert(old_sorted[p as int].lt(&old_sorted[b - 1]));
                        lemma_lt_transitive(x, old_sorted[p as int], old_sorted[b - 1]);
                    }
                    lemma_lt_transitive(old_sorted[a], x, old_sorted[b - 1]);
                } else if a == p {
                    assert(ns[b] == old_sorted[b - 1]);
                    if b - 1 > p {
                        assert(old_sorted[p as int].lt(&old_sorted[b - 1]));
                        lemma_lt_transitive(x, old_sorted[p as int], old_sorted[b - 1]);
                    }
                } else {
                    assert(ns[a] == old_sorted[a - 1] && ns[b] == old_sorted[b - 1]);
                }
            }
            let nr = rest@;
            assert(nr == old_rest.drop_last());
            assert forall|a: int, b: int|
                0 <= a < nr.len() && 0 <= b < ns.len() implies (#[trigger] nr[a]).id()
                    != (#[trigger] ns[b]).id() by {
                assert(nr[a] == old_rest[a]);
                if b < p {
                    assert(ns[b] == old_sorted[b]);
                } else if b == p {
                    assert(old_rest[a].id() != old_rest[old_rest.len() - 1].id());
                } else {
                    assert(ns[b] == old_sorted[b - 1]);
                }
            }
            assert forall|a: int| 0 <= a < ns.len() implies m.dom().contains((#[trigger] ns[a]).id())
                && m[ns[a].id()] == ns[a].view() && ns[a].view().call.id == ns[a].id() by {
                if a < p {
                    assert(ns[a] == old_sorted[a]);
                } else if a > p {
                    assert(ns[a] == old_sorted[a - 1]);
                }
            }
            assert forall|k: Seq<char>| #[trigger] m.dom().contains(k) implies (exists|a: int|
                0 <= a < nr.len() && (#[trigger] nr[a]).id() == k) || (exists|a: int|
                0 <= a < ns.len() && (#[trigger] ns[a]).id() == k) by {
                if exists|a: int| 0 <= a < old_rest.len() && (#[trigger] old_rest[a]).id() == k {
                    let a = choose|a: int| 0 <= a < old_rest.len() && (#[trigger] old_rest[a]).id() == k;
                    if a == old_rest.len() - 1 {
                        assert(ns[p as int].id() == k);
                    } else {
                        assert(nr[a] == old_rest[a]);
                    }
                } else {
                    let a = choose|a: int| 0 <= a < old_sorted.len() && (#[trigger] old_sorted[a]).id() == k;
                    if a < p {
                        assert(ns[a] == old_sorted[a]);
                    } else {
                        assert(ns[a + 1] == old_sorted[a]);
                    }
                }
            }
        }
    }
    sorted
}

/// What the sorted calls `s` satisfy: each holds the value of its identifier in `m`,
/// and they are strictly ordered.
#[verifier::opaque]
spec fn sorted_props(s: Seq<ToolLifecycle>, m: Map<Seq<char>, LifeView>) -> bool {
    &&& forall|a: int| 0 <= a < s.len() ==> m.dom().contains((#[trigger] s[a]).id()) && m[s[a].id()]
        == s[a].view() && s[a].view().call.id == s[a].id()
    &&& forall|a: int, b: int| #![trigger s[a], s[b]] 0 <= a < b < s.len() ==> s[a].lt(&s[b])
}

/// The open tools are strictly ordered.
#[verifier::opaque]
spec fn open_sorted(open: Seq<OpenToolLifecycle>) -> bool {
    forall|a: int, b: int|
        #![trigger open[a], open[b]]
        0 <= a < b < open.len() ==> open[a].key_lt(&open[b])
}

/// The pending permissions are strictly ordered.
#[verifier::opaque]
spec fn pending_sorted(pending: Seq<PendingPermissionLifecycle>) -> bool {
    forall|a: int, b: int|
        #![trigger pending[a], pending[b]]
        0 <= a < b < pending.len() ==> pending[a].key_lt(&pending[b])
}

/// Each open tool has the key of one of the first `j` sorted calls.
#[verifier::opaque]
spec fn open_from(open: Seq<OpenToolLifecycle>, s: Seq<ToolLifecycle>, j: int) -> bool {
    forall|a: int|
        0 <= a < open.len() ==> exists|q: int|
            0 <= q < j && (#[trigger] s[q]).id() == (#[trigger] open[a]).tool_call.id@ && s[q].turn
                == open[a].turn && s[q].tool_call.index == open[a].tool_call.index
}

/// Each pending permission has the key of one of the first `j` sorted calls.
#[verifier::opaque]
spec fn pending_from(pending: Seq<PendingPermissionLifecycle>, s: Seq<ToolLifecycle>, j: int) -> bool {
    forall|a: int|
        0 <= a < pending.len() ==> exists|q: int|
            0 <= q < j && (#[trigger] s[q]).id() == (#[trigger] pending[a]).tool_call.id@ && s[q].turn
                == pending[a].turn && s[q].tool_call.index == pending[a].tool_call.index
}

/// Each open tool is one that `m` leaves open, with its values.
#[verifier::opaque]
spec fn open_valid(open: Seq<OpenToolLifecycle>, m: Map<Seq<char>, LifeView>) -> bool {
    forall|a: int|
        0 <= a < open.len() ==> {
            let o = #[trigger] open[a];
            &&& m.dom().contains(o.tool_call.id@)
            &&& open_kind(m[o.tool_call.id@]) == Some(o.kind)
            &&& o.tool_call@ == m[o.tool_call.id@].call
            &&& conversation_of(o.conversation) == m[o.tool_call.id@].conversation
            &&& o.turn == m[o.tool_call.id@].turn
        }
}

/// Each pending permission is one that `m` leaves pending, with its values.
#[verifier::opaque]
spec fn pending_valid(pending: Seq<PendingPermissionLifecycle>, m: Map<Seq<char>, LifeView>) -> bool {
    forall|a: int|
        0 <= a < pending.len() ==> {
            let p = #[trigger] pending[a];
            &&& m.dom().contains(p.tool_call.id@)
            &&& is_pending(m[p.tool_call.id@])
            &&& p.tool_call@ == m[p.tool_call.id@].call
            &&& conversation_of(p.conversation) == m[p.tool_call.id@].conversation
            &&& Some(p.request@) == m[p.tool_call.id@].request
            &&& p.turn == m[p.tool_call.id@].turn
        }
}

/// Each of the first `j` sorted calls that is open is among the open tools.
#[verifier::opaque]
spec fn open_cover(open: Seq<OpenToolLifecycle>, s: Seq<ToolLifecycle>, j: int) -> bool {
    forall|q: int|
        0 <= q < j && open_kind((#[trigger] s[q]).view()) is Some ==> exists|a: int|
            0 <= a < open.len() && (#[trigger] open[a]).tool_call.id@ == s[q].id()
}

/// Each of the first `j` sorted calls that is pending is among the pending permissions.
#[verifier::opaque]
spec fn pending_cover(pending: Seq<PendingPermissionLifecycle>, s: Seq<ToolLifecycle>, j: int) -> bool {
    forall|q: int|
        0 <= q < j && is_pending((#[trigger] s[q]).view()) ==> exists|a: int|
            0 <= a < pending.len() && (#[trigger] pending[a]).tool_call.id@ == s[q].id()
}

/// The lists built from the first `j` sorted calls `s`.
spec fn part_inv(
    open: Seq<OpenToolLifecycle>,
    pending: Seq<PendingPermissionLifecycle>,
    s: Seq<ToolLifecycle>,
    j: int,
    m: Map<Seq<char>, LifeView>,
) -> bool {
    &&& open_sorted(open)
    &&& pending_sorted(pending)
    &&& open_from(open, s, j)
    &&& pending_from(pending, s, j)
    &&& open_valid(open, m)
    &&& pending_valid(pending, m)
    &&& open_cover(open, s, j)
    &&& pending_cover(pending, s, j)
}

proof fn lemma_open_unchanged(open: Seq<OpenToolLifecycle>, s: Seq<ToolLifecycle>, j: int)
    requires
        0 <= j < s.len(),
        open_from(open, s, j),
        open_cover(open, s, j),
        open_kind(s[j].view()) is None,
    ensures
        open_from(open, s, j + 1),
        open_cover(open, s, j + 1),
{
    reveal(open_from);
    reveal(open_cover);
    assert forall|a: int| 0 <= a < open.len() implies exists|q: int|
        0 <= q < j + 1 && (#[trigger] s[q]).id() == (#[trigger] open[a]).tool_call.id@ && s[q].turn
            == open[a].turn && s[q].tool_call.index == open[a].tool_call.index by {
        let q = choose|q: int|
            0 <= q < j && (#[trigger] s[q]).id() == (#[trigger] open[a]).tool_call.id@ && s[q].turn
                == open[a].turn && s[q].tool_call.index == open[a].tool_call.index;
    }
}

proof fn lemma_pending_unchanged(pending: Seq<PendingPermissionLifecycle>, s: Seq<ToolLifecycle>, j: int)
    requires
        0 <= j < s.len(),
        pending_from(pending, s, j),
        pending_cover(pending, s, j),
        !is_pending(s[j].view()),
    ensures
        pending_from(pending, s, j + 1),
        pending_cover(pending, s, j + 1),
{
    reveal(pending_from);
    reveal(pending_cover);
    assert forall|a: int| 0 <= a < pending.len() implies exists|q: int|
        0 <= q < j + 1 && (#[trigger] s[q]).id() == (#[trigger] pending[a]).tool_call.id@ && s[q].turn
            == pending[a].turn && s[q].tool_call.index == pending[a].tool_call.index by {
        let q = choose|q: int|
            0 <= q < j && (#[trigger] s[q]).id() == (#[trigger] pending[a]).tool_call.id@ && s[q].turn
                == pending[a].turn && s[q].tool_call.index == pending[a].tool_call.index;
    }
}

proof fn lemma_open_push_order(
    open: Seq<OpenToolLifecycle>,
    s: Seq<ToolLifecycle>,
    j: int,
    m: Map<Seq<char>, LifeView>,
    o: OpenToolLifecycle,
)
    requires
        0 <= j < s.len(),
        sorted_props(s, m),
        open_sorted(open),
        open_from(open, s, j),
        open_valid(open, m),
        open_cover(open, s, j),
        open_kind(s[j].view()) == Some(o.kind),
        o.tool_call == s[j].tool_call,
        o.conversation == s[j].conversation,
        o.turn == s[j].turn,
    ensures
        open_sorted(open.push(o)),
        open_from(open.push(o), s, j + 1),
{
    reveal(sorted_props);
    reveal(open_sorted);
    reveal(open_from);
    reveal(open_valid);
    reveal(open_cover);
    let no = open.push(o);
    let n = open.len() as int;
    assert(no[n] == o);
    assert forall|a: int, b: int|
        #![trigger no[a], no[b]]
        0 <= a < b < no.len() implies no[a].key_lt(&no[b]) by {
        assert(no[a] == open[a]);
        if b == n {
            let q = choose|q: int|
                0 <= q < j && (#[trigger] s[q]).id() == (#[trigger] open[a]).tool_call.id@ && s[q].turn
                    == open[a].turn && s[q].tool_call.index == open[a].tool_call.index;
            assert(s[q].lt(&s[j]));
        } else {
            assert(no[b] == open[b]);
        }
    }
    assert forall|a: int| 0 <= a < no.len() implies exists|q: int|
        0 <= q < j + 1 && (#[trigger] s[q]).id() == (#[trigger] no[a]).tool_call.id@ && s[q].turn
            == no[a].turn && s[q].tool_call.index == no[a].tool_call.index by {
        if a == n {
            assert(s[j].id() == no[a].tool_call.id@);
        } else {
            assert(no[a] == open[a]);
            let q = choose|q: int|
                0 <= q < j && (#[trigger] s[q]).id() == (#[trigger] open[a]).tool_call.id@ && s[q].turn
                    == open[a].turn && s[q].tool_call.index == open[a].tool_call.index;
        }
    }
}

proof fn lemma_open_push_rest(
    open: Seq<OpenToolLifecycle>,
    s: Seq<ToolLifecycle>,
    j: int,
    m: Map<Seq<char>, LifeView>,
    o: OpenToolLifecycle,
)
    requires
        0 <= j < s.len(),
        sorted_props(s, m),
        open_sorted(open),
        open_from(open, s, j),
        open_valid(open, m),
        open_cover(open, s, j),
        open_kind(s[j].view()) == Some(o.kind),
        o.tool_call == s[j].tool_call,
        o.conversation == s[j].conversation,
        o.turn == s[j].turn,
    ensures
        open_valid(open.push(o), m),
        open_cover(open.push(o), s, j + 1),
{
    reveal(sorted_props);
    reveal(open_sorted);
    reveal(open_from);
    reveal(open_valid);
    reveal(open_cover);
    let no = open.push(o);
    let n = open.len() as int;
    assert(no[n] == o);
    assert forall|q: int|
        0 <= q < j + 1 && open_kind((#[trigger] s[q]).view()) is Some implies exists|a: int|
            0 <= a < no.len() && (#[trigger] no[a]).tool_call.id@ == s[q].id() by {
        if q == j {
            assert(no[n].tool_call.id@ == s[q].id());
        } else {
            let a = choose|a: int| 0 <= a < open.len() && (#[trigger] open[a]).tool_call.id@ == s[q].id();
            assert(no[a] == open[a]);
        }
    }
    assert forall|a: int| 0 <= a < no.len() implies {
        let o = #[trigger] no[a];
        &&& m.dom().contains(o.tool_call.id@)
        &&& open_kind(m[o.tool_call.id@]) == Some(o.kind)
        &&& o.tool_call@ == m[o.tool_call.id@].call
        &&& conversation_of(o.conversation) == m[o.tool_call.id@].conversation
        &&& o.turn == m[o.tool_call.id@].turn
    } by {
        if a < n {
            assert(no[a] == open[a]);
        }
    }
}

proof fn lemma_open_push(
    open: Seq<OpenToolLifecycle>,
    s: Seq<ToolLifecycle>,
    j: int,
    m: Map<Seq<char>, LifeView>,
    o: OpenToolLifecycle,
)
    requires
        0 <= j < s.len(),
        sorted_props(s, m),
        open_sorted(open),
        open_from(open, s, j),
        open_valid(open, m),
        open_cover(open, s, j),
        open_kind(s[j].view()) == Some(o.kind),
        o.tool_call == s[j].tool_call,
        o.conversation == s[j].conversation,
        o.turn == s[j].turn,
    ensures
        open_sorted(open.push(o)),
        open_from(open.push(o), s, j + 1),
        open_valid(open.push(o), m),
        open_cover(open.push(o), s, j + 1),
{
    lemma_open_push_order(open, s, j, m, o);
    lemma_open_push_rest(open, s, j, m, o);
}

proof fn lemma_pending_push_order(
    pending: Seq<PendingPermissionLifecycle>,
    s: Seq<ToolLifecycle>,
    j: int,
    m: Map<Seq<char>, LifeView>,
    p: PendingPermissionLifecycle,
)
    requires
        0 <= j < s.len(),
        sorted_props(s, m),
        pending_sorted(pending),
        pending_from(pending, s, j),
        pending_valid(pending, m),
        pending_cover(pending, s, j),
        is_pending(s[j].view()),
        s[j].permission_request == Some(p.request),
        p.tool_call == s[j].tool_call,
        p.conversation == s[j].conversation,
        p.turn == s[j].turn,
    ensures
        pending_sorted(pending.push(p)),
        pending_from(pending.push(p), s, j + 1),
{
    reveal(sorted_props);
    reveal(pending_sorted);
    reveal(pending_from);
    reveal(pending_valid);
    reveal(pending_cover);
    let np = pending.push(p);
    let n = pending.len() as int;
    assert(np[n] == p);
    assert forall|a: int, b: int|
        #![trigger np[a], np[b]]
        0 <= a < b < np.len() implies np[a].key_lt(&np[b]) by {
        assert(np[a] == pending[a]);
        if b == n {
            let q = choose|q: int|
                0 <= q < j && (#[trigger] s[q]).id() == (#[trigger] pending[a]).tool_call.id@
                    && s[q].turn == pending[a].turn && s[q].tool_call.index
                    == pending[a].tool_call.index;
            assert(s[q].lt(&s[j]));
        } else {
            assert(np[b] == pending[b]);
        }
    }
    assert forall|a: int| 0 <= a < np.len() implies exists|q: int|
        0 <= q < j + 1 && (#[trigger] s[q]).id() == (#[trigger] np[a]).tool_call.id@ && s[q].turn
            == np[a].turn && s[q].tool_call.index == np[a].tool_call.index by {
        if a == n {
            assert(s[j].id() == np[a].tool_call.id@);
        } else {
            assert(np[a] == pending[a]);
            let q = choose|q: int|
                0 <= q < j && (#[trigger] s[q]).id() == (#[trigger] pending[a]).tool_call.id@
                    && s[q].turn == pending[a].turn && s[q].tool_call.index
                    == pending[a].tool_call.index;
        }
    }
}

proof fn lemma_pending_push_rest(
    pending: Seq<PendingPermissionLifecycle>,
    s: Seq<ToolLifecycle>,
    j: int,
    m: Map<Seq<char>, LifeView>,
    p: PendingPermissionLifecycle,
)
    requires
        0 <= j < s.len(),
        sorted_props(s, m),
        pending_sorted(pending),
        pending_from(pending, s, j),
        pending_valid(pending, m),
        pending_cover(pending, s, j),
        is_pending(s[j].view()),
        s[j].permission_request == Some(p.request),
        p.tool_call == s[j].tool_call,
        p.conversation == s[j].conversation,
        p.turn == s[j].turn,
    ensures
        pending_valid(pending.push(p), m),
        pending_cover(pending.push(p), s, j + 1),
{
    reveal(sorted_props);
    reveal(pending_sorted);
    reveal(pending_from);
    reveal(pending_valid);
    reveal(pending_cover);
    let np = pending.push(p);
    let n = pending.len() as int;
    assert(np[n] == p);
    assert forall|q: int|
        0 <= q < j + 1 && is_pending((#[trigger] s[q]).view()) implies exists|a: int|
            0 <= a < np.len() && (#[trigger] np[a]).tool_call.id@ == s[q].id() by {
        if q == j {
            assert(np[n].tool_call.id@ == s[q].id());
        } else {
            let a = choose|a: int|
                0 <= a < pending.len() && (#[trigger] pending[a]).tool_call.id@ == s[q].id();
            assert(np[a] == pending[a]);
        }
    }
    assert forall|a: int| 0 <= a < np.len() implies {
        let p = #[trigger] np[a];
        &&& m.dom().contains(p.tool_call.id@)
        &&& is_pending(m[p.tool_call.id@])
        &&& p.tool_call@ == m[p.tool_call.id@].call
        &&& conversation_of(p.conversation) == m[p.tool_call.id@].conversation
        &&& Some(p.request@) == m[p.tool_call.id@].request
        &&& p.turn == m[p.tool_call.id@].turn
    } by {
        if a < n {
            assert(np[a] == pending[a]);
        }
    }
}

proof fn lemma_pending_push(
    pending: Seq<PendingPermissionLifecycle>,
    s: Seq<ToolLifecycle>,
    j: int,
    m: Map<Seq<char>, LifeView>,
    p: PendingPermissionLifecycle,
)
    requires
        0 <= j < s.len(),
        sorted_props(s, m),
        pending_sorted(pending),
        pending_from(pending, s, j),
        pending_valid(pending, m),
        pending_cover(pending, s, j),
        is_pending(s[j].view()),
        s[j].permission_request == Some(p.request),
        p.tool_call == s[j].tool_call,
        p.conversation == s[j].conversation,
        p.turn == s[j].turn,
    ensures
        pending_sorted(pending.push(p)),
        pending_from(pending.push(p), s, j + 1),
        pending_valid(pending.push(p), m),
        pending_cover(pending.push(p), s, j + 1),
{
    lemma_pending_push_order(pending, s, j, m, p);
    lemma_pending_push_rest(pending, s, j, m, p);
}

/// Files one sorted call into the list it belongs to.
fn file_entry(
    open: &mut Vec<OpenToolLifecycle>,
    pending: &mut Vec<PendingPermissionLifecycle>,
    entry: ToolLifecycle,
    Ghost(s): Ghost<Seq<ToolLifecycle>>,
    Ghost(j): Ghost<int>,
    Ghost(m): Ghost<Map<Seq<char>, LifeView>>,
)
    requires
        0 <= j < s.len(),
        sorted_props(s, m),
        entry == s[j],
        part_inv(old(open)@, old(pending)@, s, j, m),
    ensures
        part_inv(final(open)@, final(pending)@, s, j + 1, m),
{
    if entry.has_result {
        proof {
            lemma_open_unchanged(open@, s, j);
            lemma_pending_unchanged(pending@, s, j);
        }
    } else if entry.permission_denied || entry.permission_allowed
        || entry.permission_request.is_none() {
        let kind = if entry.permission_denied {
            OpenToolKind::DeniedWithoutResult
        } else if entry.permission_allowed {
            OpenToolKind::AllowedWithoutResult
        } else {
            OpenToolKind::Interrupted
        };
        let o = OpenToolLifecycle {
            tool_call: entry.tool_call,
            conversation: entry.conversation,
            kind,
            turn: entry.turn,
        };
        proof {
            lemma_open_push(open@, s, j, m, o);
            lemma_pending_unchanged(pending@, s, j);
        }
        open.push(o);
    } else {
        match entry.permission_request {
            Some(request) => {
                let p = PendingPermissionLifecycle {
                    tool_call: entry.tool_call,
                    conversation: entry.conversation,
                    request,
                    turn: entry.turn,
                };
                proof {
                    lemma_pending_push(pending@, s, j, m, p);
                    lemma_open_unchanged(open@, s, j);
                }
                pending.push(p);
            },
            None => {},
        }
    }
}

/// Reduces the facts `events` that no rollback removed to the tool calls that are still open.
///
/// A call is tracked from its first `ToolCall` fact; later `ToolCall` facts with the same
/// identifier change nothing, and facts about calls that are not tracked are ignored.
pub fn reduce_lifecycle(events: &[StoredEvent]) -> (state: LifecycleState)
    ensures
        state_reflects(state, life_map(live_events(events@))),
{
    let live = live_event_positions(events);
    let ghost l = live_events(events@);
    proof {
        lemma_live_positions_bounds(events@, events@.len() as int);
        let p = live_positions(events@, events@.len() as int);
        assert(live@.map_values(|j: usize| j as int).len() == p.len());
        assert(live@.len() == l.len());
        assert forall|a: int| 0 <= a < live@.len() implies (#[trigger] live@[a]) < events@.len()
            && events@[live@[a] as int] == l[a] by {
            assert(live@.map_values(|j: usize| j as int)[a] == p[a]);
            assert(0 <= p[a] < events@.len());
        }
    }
    let mut tools: Vec<ToolLifecycle> = Vec::new();
    let mut t: usize = 0;
    while t < live.len()
        invariant
            t <= live@.len(),
            l == live_events(events@),
            live@.len() == l.len(),
            forall|a: int| 0 <= a < live@.len() ==> (#[trigger] live@[a]) < events@.len() && events@[
                live@[a] as int] == l[a],
            tools_match(tools@, life_map(l.subrange(0, t as int))),
        decreases live@.len() - t,
    {
        proof {
            lemma_life_map_step(l, t as int);
        }
        let j = live[t];
        apply_event(&mut tools, &events[j].payload, Ghost(life_map(l.subrange(0, t as int))));
        t = t + 1;
    }
    let ghost m = life_map(l);
    assert(l.subrange(0, l.len() as int) =~= l);
    let mut sorted = sort_tools(tools, Ghost(m));
    let ghost s = sorted@;
    let total: usize = sorted.len();
    proof {
        reveal(sorted_props);
        reveal(open_sorted);
        reveal(pending_sorted);
        reveal(open_from);
        reveal(pending_from);
        reveal(open_valid);
        reveal(pending_valid);
        reveal(open_cover);
        reveal(pending_cover);
    }
    let mut open_tools: Vec<OpenToolLifecycle> = Vec::new();
    let mut pending_permissions: Vec<PendingPermissionLifecycle> = Vec::new();
    let mut j: usize = 0;
    while sorted.len() > 0
        invariant
            j <= s.len(),
            s.len() == total,
            sorted@ == s.subrange(j as int, s.len() as int),
            sorted_props(s, m),
            part_inv(open_tools@, pending_permissions@, s, j as int, m),
        decreases s.len() - j,
    {
        let entry = sorted.remove(0);
        proof {
            assert(entry == s[j as int]);
            assert(sorted@ =~= s.subrange(j + 1, s.len() as int));
        }
        file_entry(&mut open_tools, &mut pending_permissions, entry, Ghost(s), Ghost(j as int), Ghost(m));
        j = j + 1;
    }
    let state = LifecycleState { open_tools, pending_permissions };
    proof {
        lemma_cover(state, s, m);
    }
    state
}

proof fn lemma_cover(state: LifecycleState, s: Seq<ToolLifecycle>, m: Map<Seq<char>, LifeView>)
    requires
        sorted_props(s, m),
        forall|k: Seq<char>|
            #![trigger m.dom().contains(k)]
            m.dom().contains(k) ==> exists|a: int| 0 <= a < s.len() && (#[trigger] s[a]).id() == k,
        part_inv(state.open_tools@, state.pending_permissions@, s, s.len() as int, m),
    ensures
        state_reflects(state, m),
{
    reveal(sorted_props);
    reveal(open_sorted);
    reveal(pending_sorted);
    reveal(open_valid);
    reveal(pending_valid);
    reveal(open_cover);
    reveal(pending_cover);
    assert forall|k: Seq<char>| #[trigger] m.dom().contains(k) && open_kind(m[k]) is Some implies exists|a: int|
        0 <= a < state.open_tools@.len() && (#[trigger] state.open_tools@[a]).tool_call.id@ == k by {
        let q = choose|q: int| 0 <= q < s.len() && (#[trigger] s[q]).id() == k;
    }
    assert forall|k: Seq<char>| #[trigger] m.dom().contains(k) && is_pending(m[k]) implies exists|a: int|
        0 <= a < state.pending_permissions@.len()
            && (#[trigger] state.pending_permissions@[a]).tool_call.id@ == k by {
        let q = choose|q: int| 0 <= q < s.len() && (#[trigger] s[q]).id() == k;
    }
}

/// The output order is transitive.
proof fn lemma_lt_transitive(a: ToolLifecycle, b: ToolLifecycle, c: ToolLifecycle)
    requires
        a.lt(&b),
        b.lt(&c),
    ensures
        a.lt(&c),
{
    if a.turn == b.turn && b.turn == c.turn && a.tool_call.index == b.tool_call.index
        && b.tool_call.index == c.tool_call.index {
        crate::text::lemma_seq_lt_transitive(a.tool_call.id@, b.tool_call.id@, c.tool_call.id@);
    }
}


/// The open tools and the pending permissions come in the order of their turns, and within
/// a turn in the order of the calls' indices (calls with the same index by identifier).
pub proof fn law_lifecycle_order(state: LifecycleState, m: Map<Seq<char>, LifeView>)
    requires
        state_reflects(state, m),
    ensures
        forall|a: int, b: int|
            #![trigger state.open_tools@[a], state.open_tools@[b]]
            0 <= a < b < state.open_tools@.len() ==> {
                let x = state.open_tools@[a];
                let y = state.open_tools@[b];
                x.turn < y.turn || (x.turn == y.turn && x.tool_call.index < y.tool_call.index) || (
                x.turn == y.turn && x.tool_call.index == y.tool_call.index && seq_lt(
                    x.tool_call.id@,
                    y.tool_call.id@,
                ))
            },
        forall|a: int, b: int|
            #![trigger state.pending_permissions@[a], state.pending_permissions@[b]]
            0 <= a < b < state.pending_permissions@.len() ==> {
                let x = state.pending_permissions@[a];
                let y = state.pending_permissions@[b];
                x.turn < y.turn || (x.turn == y.turn && x.tool_call.index < y.tool_call.index) || (
                x.turn == y.turn && x.tool_call.index == y.tool_call.index && seq_lt(
                    x.tool_call.id@,
                    y.tool_call.id@,
                ))
            },
{
}

} // verus!
