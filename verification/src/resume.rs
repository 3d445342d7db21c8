//! What a session's log says when a run starts or resumes: the next turn, whether a turn
//! has ended, how many requests and tool rounds a turn has made, and the token usage
//! last reported.

use vstd::prelude::*;

use crate::error::Error;
use crate::events::{conversation_of, in_conversation, same_text, EventPayload, StoredEvent};
use crate::json::{json_u64_field, JsonValue, JsonView};
use crate::lifecycle::{LifecycleState, OpenToolLifecycle, PendingPermissionLifecycle};
use crate::text::{chars_of, decimal, u64_to_decimal};
use crate::types::{PermissionRequest, ProviderToolCall};

verus! {

/// The highest turn that a `TurnStarted` fact of `events` names, or zero.
pub open spec fn max_started_turn(events: Seq<StoredEvent>) -> nat
    decreases events.len(),
{
    if events.len() == 0 {
        0
    } else {
        let rest = max_started_turn(events.drop_last());
        match events.last().payload {
            EventPayload::TurnStarted { turn, .. } => if turn > rest {
                turn as nat
            } else {
                rest
            },
            _ => rest,
        }
    }
}

/// Every started turn is below the largest `u64`, so the next one can be numbered.
pub open spec fn turns_below_max(events: Seq<StoredEvent>) -> bool {
    forall|i: int|
        0 <= i < events.len() ==> match #[trigger] events[i].payload {
            EventPayload::TurnStarted { turn, .. } => turn < u64::MAX,
            _ => true,
        }
}

/// The number of the turn that follows the last started one.
pub fn next_turn(events: &[StoredEvent]) -> (t: u64)
    requires
        turns_below_max(events@),
    ensures
        t == max_started_turn(events@) + 1,
{
    let mut max: u64 = 0;
    let mut i: usize = 0;
    while i < events.len()
        invariant
            i <= events@.len(),
            turns_below_max(events@),
            max == max_started_turn(events@.subrange(0, i as int)),
            max < u64::MAX,
        decreases events@.len() - i,
    {
        proof {
            assert(events@.subrange(0, i + 1).drop_last() =~= events@.subrange(0, i as int));
            assert(events@.subrange(0, i + 1).last() == events@[i as int]);
        }
        match &events[i].payload {
            EventPayload::TurnStarted { turn, .. } => {
                if *turn > max {
                    max = *turn;
                }
            },
            _ => {},
        }
        i = i + 1;
    }
    proof {
        assert(events@.subrange(0, events@.len() as int) =~= events@);
    }
    max + 1
}

/// The message of the error for a log that does not begin with the session's creation.
pub open spec fn first_event_message() -> Seq<char> {
    "first event must be session.created"@
}

/// An existing log is empty or begins with the session's creation.
pub fn validate_existing_session(events: &[StoredEvent]) -> (r: Result<(), Error>)
    ensures
        r is Ok <==> (events@.len() == 0 || events@[0].payload is SessionCreated),
        r matches Err(e) ==> e == Error::InvalidEventStream(e->InvalidEventStream_0)
            && e->InvalidEventStream_0@ == first_event_message(),
{
    if events.len() == 0 {
        return Ok(());
    }
    match &events[0].payload {
        EventPayload::SessionCreated { .. } => Ok(()),
        _ => {
            let m = String::from_str("first event must be session.created");
            Err(Error::InvalidEventStream(m))
        },
    }
}

/// Whether a fact ends turn `turn` of `conversation`.
pub open spec fn ends_turn(p: EventPayload, conversation: Seq<char>, turn: u64) -> bool {
    match p {
        EventPayload::TurnCompleted { conversation: c, turn: t } => t == turn && c@ == conversation,
        EventPayload::TurnCancelled { conversation: c, turn: t, .. } => t == turn && c@
            == conversation,
        EventPayload::TurnInterrupted { conversation: c, turn: t, .. } => t == turn && c@
            == conversation,
        _ => false,
    }
}

/// Whether turn `turn` of `conversation` has ended: completed, cancelled or interrupted.
pub fn has_terminal_event(events: &[StoredEvent], conversation: &str, turn: u64) -> (b: bool)
    ensures
        b == exists|i: int| 0 <= i < events@.len() && ends_turn(#[trigger] events@[i].payload, conversation@, turn),
{
    let mut i: usize = 0;
    while i < events.len()
        invariant
            i <= events@.len(),
            forall|k: int| 0 <= k < i ==> !ends_turn(#[trigger] events@[k].payload, conversation@, turn),
        decreases events@.len() - i,
    {
        let hit = match &events[i].payload {
            EventPayload::TurnCompleted { conversation: c, turn: t } => *t == turn && same_text(
                c.as_str(),
                conversation,
            ),
            EventPayload::TurnCancelled { conversation: c, turn: t, .. } => *t == turn && same_text(
                c.as_str(),
                conversation,
            ),
            EventPayload::TurnInterrupted { conversation: c, turn: t, .. } => *t == turn && same_text(
                c.as_str(),
                conversation,
            ),
            _ => false,
        };
        if hit {
            return true;
        }
        i = i + 1;
    }
    false
}

/// Whether a fact is a model request of turn `turn` of `conversation`: a response, an
/// error or a recovery.
pub open spec fn is_request_fact(p: EventPayload, conversation: Seq<char>, turn: u64) -> bool {
    match p {
        EventPayload::ModelResponse { conversation: c, turn: t, .. } => t == turn && conversation_of(c)
            == conversation,
        EventPayload::ModelError { conversation: c, turn: t, .. } => t == turn && conversation_of(c)
            == conversation,
        EventPayload::ModelRecovery { conversation: c, turn: t, .. } => t == turn && c@
            == conversation,
        _ => false,
    }
}

/// The number of model requests that turn `turn` of `conversation` has made.
pub open spec fn request_count(events: Seq<StoredEvent>, conversation: Seq<char>, turn: u64) -> nat
    decreases events.len(),
{
    if events.len() == 0 {
        0
    } else {
        request_count(events.drop_last(), conversation, turn) + if is_request_fact(
            events.last().payload,
            conversation,
            turn,
        ) {
            1nat
        } else {
            0nat
        }
    }
}

proof fn lemma_request_count_bound(events: Seq<StoredEvent>, conversation: Seq<char>, turn: u64)
    ensures
        request_count(events, conversation, turn) <= events.len(),
    decreases events.len(),
{
    if events.len() > 0 {
        lemma_request_count_bound(events.drop_last(), conversation, turn);
    }
}

fn request_fact(p: &EventPayload, conversation: &str, turn: u64) -> (b: bool)
    ensures
        b == is_request_fact(*p, conversation@, turn),
{
    match p {
        EventPayload::ModelResponse { conversation: c, turn: t, .. } => *t == turn && in_conversation(
            c,
            conversation,
        ),
        EventPayload::ModelError { conversation: c, turn: t, .. } => *t == turn && in_conversation(
            c,
            conversation,
        ),
        EventPayload::ModelRecovery { conversation: c, turn: t, .. } => *t == turn && same_text(
            c.as_str(),
            conversation,
        ),
        _ => false,
    }
}

/// How many model requests turn `turn` of `conversation` has made so far.
pub fn resumed_model_request_count(events: &[StoredEvent], turn: u64, conversation: &str) -> (n:
    u64)
    ensures
        n == request_count(events@, conversation@, turn),
{
    let mut n: u64 = 0;
    let mut i: usize = 0;
    while i < events.len()
        invariant
            i <= events@.len(),
            n == request_count(events@.subrange(0, i as int), conversation@, turn),
        decreases events@.len() - i,
    {
        proof {
            assert(events@.subrange(0, i + 1).drop_last() =~= events@.subrange(0, i as int));
            lemma_request_count_bound(events@.subrange(0, i as int), conversation@, turn);
        }
        if request_fact(&events[i].payload, conversation, turn) {
            n = n + 1;
        }
        i = i + 1;
    }
    proof {
        assert(events@.subrange(0, events@.len() as int) =~= events@);
    }
    n
}

/// The number that a request identifier of the form `req_N` carries, if it has that form
/// and the number fits in 64 bits.
pub open spec fn request_number(id: Seq<char>) -> Option<u64> {
    if id.len() > 4 && id.subrange(0, 4) == "req_"@ && all_digits(id.subrange(4, id.len() as int))
        && digits_value(id.subrange(4, id.len() as int)) <= u64::MAX {
        Some(digits_value(id.subrange(4, id.len() as int)) as u64)
    } else {
        None
    }
}

/// Whether every character of `s` is a decimal digit.
pub open spec fn all_digits(s: Seq<char>) -> bool {
    forall|i: int| 0 <= i < s.len() ==> '0' <= #[trigger] s[i] <= '9'
}

/// The number that the decimal digits `s` write.
pub open spec fn digits_value(s: Seq<char>) -> nat
    decreases s.len(),
{
    if s.len() == 0 {
        0
    } else {
        digits_value(s.drop_last()) * 10 + ((s.last() as u32) - 48) as nat
    }
}

/// The number of a request identifier `req_N`.
pub fn parse_request_number(id: &str) -> (r: Option<u64>)
    ensures
        r == request_number(id@),
{
    let c = chars_of(id);
    let prefix = chars_of("req_");
    proof {
        reveal_strlit("req_");
    }
    if c.len() <= 4 || !crate::text::starts_with_chars(&c, &prefix) {
        return None;
    }
    let ghost digits = c@.subrange(4, c@.len() as int);
    let mut value: u64 = 0;
    let mut i: usize = 4;
    while i < c.len()
        invariant
            4 <= i <= c@.len(),
            c@ == id@,
            digits == c@.subrange(4, c@.len() as int),
            all_digits(c@.subrange(4, i as int)),
            value == digits_value(c@.subrange(4, i as int)),
        decreases c@.len() - i,
    {
        let ch = c[i];
        let ghost before = c@.subrange(4, i as int);
        let ghost after = c@.subrange(4, i + 1);
        proof {
            assert(after.drop_last() =~= before);
            assert(after.last() == ch);
        }
        if !('0' <= ch && ch <= '9') {
            proof {
                assert(!all_digits(digits)) by {
                    assert(digits[i - 4] == ch);
                }
            }
            return None;
        }
        let d: u64 = ((ch as u32) - 48) as u64;
        proof {
            assert(all_digits(after)) by {
                assert forall|q: int| 0 <= q < after.len() implies '0' <= #[trigger] after[q] <= '9' by {
                    if q < before.len() {
                        assert(after[q] == before[q]);
                    }
                }
            }
            assert(digits_value(after) == value * 10 + d);
            assert(after =~= digits.subrange(0, i - 3));
        }
        match value.checked_mul(10) {
            Some(m) => match m.checked_add(d) {
                Some(v) => {
                    value = v;
                },
                None => {
                    proof {
                        lemma_digits_value_grows(digits, i - 4 + 1);
                    }
                    return None;
                },
            },
            None => {
                proof {
                    lemma_digits_value_grows(digits, i - 4 + 1);
                }
                return None;
            },
        }
        i = i + 1;
    }
    proof {
        assert(c@.subrange(4, i as int) =~= digits);
    }
    Some(value)
}

/// Reading more digits never gives a smaller number.
proof fn lemma_digits_value_grows(s: Seq<char>, k: int)
    requires
        0 <= k <= s.len(),
        all_digits(s.subrange(0, k)),
        all_digits(s) || true,
    ensures
        all_digits(s) ==> digits_value(s.subrange(0, k)) <= digits_value(s),
    decreases s.len() - k,
{
    if k < s.len() && all_digits(s) {
        lemma_digits_value_grows(s, k + 1);
        let a = s.subrange(0, k + 1);
        assert(a.drop_last() =~= s.subrange(0, k));
        assert('0' <= a.last() <= '9');
    } else if k == s.len() {
        assert(s.subrange(0, k) =~= s);
    }
}

/// The request number that a fact of turn `turn` of `conversation` names, if any.
pub open spec fn fact_request_number(p: EventPayload, conversation: Seq<char>, turn: u64) -> Option<
    u64,
> {
    match p {
        EventPayload::ModelResponse { conversation: c, turn: t, request_id, .. } => if t == turn
            && conversation_of(c) == conversation {
            request_number(request_id@)
        } else {
            None
        },
        EventPayload::ModelError { conversation: c, turn: t, request_id, .. } => if t == turn
            && conversation_of(c) == conversation {
            request_number(request_id@)
        } else {
            None
        },
        EventPayload::ModelRecovery { conversation: c, turn: t, to_request_id, .. } => if t == turn
            && c@ == conversation {
            request_number(to_request_id@)
        } else {
            None
        },
        _ => None,
    }
}

/// The highest request number that turn `turn` of `conversation` has used, or zero.
pub open spec fn max_request_number(events: Seq<StoredEvent>, conversation: Seq<char>, turn: u64) -> u64
    decreases events.len(),
{
    if events.len() == 0 {
        0
    } else {
        let rest = max_request_number(events.drop_last(), conversation, turn);
        match fact_request_number(events.last().payload, conversation, turn) {
            Some(n) => if n > rest {
                n
            } else {
                rest
            },
            None => rest,
        }
    }
}

fn fact_number(p: &EventPayload, conversation: &str, turn: u64) -> (r: Option<u64>)
    ensures
        r == fact_request_number(*p, conversation@, turn),
{
    match p {
        EventPayload::ModelResponse { conversation: c, turn: t, request_id, .. } => {
            if *t == turn && in_conversation(c, conversation) {
                parse_request_number(request_id.as_str())
            } else {
                None
            }
        },
        EventPayload::ModelError { conversation: c, turn: t, request_id, .. } => {
            if *t == turn && in_conversation(c, conversation) {
                parse_request_number(request_id.as_str())
            } else {
                None
            }
        },
        EventPayload::ModelRecovery { conversation: c, turn: t, to_request_id, .. } => {
            if *t == turn && same_text(c.as_str(), conversation) {
                parse_request_number(to_request_id.as_str())
            } else {
                None
            }
        },
        _ => None,
    }
}

/// The number of the last request that turn `turn` of `conversation` has made: the highest
/// `N` of its `req_N` identifiers, or zero.
pub fn resumed_request_num(events: &[StoredEvent], turn: u64, conversation: &str) -> (n: u64)
    ensures
        n == max_request_number(events@, conversation@, turn),
{
    let mut n: u64 = 0;
    let mut i: usize = 0;
    while i < events.len()
        invariant
            i <= events@.len(),
            n == max_request_number(events@.subrange(0, i as int), conversation@, turn),
        decreases events@.len() - i,
    {
        proof {
            assert(events@.subrange(0, i + 1).drop_last() =~= events@.subrange(0, i as int));
        }
        match fact_number(&events[i].payload, conversation, turn) {
            Some(k) => {
                if k > n {
                    n = k;
                }
            },
            None => {},
        }
        i = i + 1;
    }
    proof {
        assert(events@.subrange(0, events@.len() as int) =~= events@);
    }
    n
}

/// The request identifier of a tool call of turn `turn` of `conversation`, if the fact is one.
pub open spec fn round_of(p: EventPayload, conversation: Seq<char>, turn: u64) -> Option<Seq<char>> {
    match p {
        EventPayload::ToolCall { turn: t, conversation: c, request_id, .. } => if t == turn
            && conversation_of(c) == conversation {
            Some(request_id@)
        } else {
            None
        },
        _ => None,
    }
}

/// The distinct request identifiers of the tool calls of turn `turn` of `conversation`, in
/// order of first appearance.
pub open spec fn tool_rounds(events: Seq<StoredEvent>, conversation: Seq<char>, turn: u64) -> Seq<
    Seq<char>,
>
    decreases events.len(),
{
    if events.len() == 0 {
        Seq::empty()
    } else {
        let rest = tool_rounds(events.drop_last(), conversation, turn);
        match round_of(events.last().payload, conversation, turn) {
            Some(id) => if rest.contains(id) {
                rest
            } else {
                rest.push(id)
            },
            None => rest,
        }
    }
}

proof fn lemma_tool_rounds_bound(events: Seq<StoredEvent>, conversation: Seq<char>, turn: u64)
    ensures
        tool_rounds(events, conversation, turn).len() <= events.len(),
    decreases events.len(),
{
    if events.len() > 0 {
        lemma_tool_rounds_bound(events.drop_last(), conversation, turn);
    }
}

/// How many tool rounds turn `turn` of `conversation` has made: the number of distinct
/// requests that asked for tools.
pub fn resumed_tool_rounds(events: &[StoredEvent], turn: u64, conversation: &str) -> (n: u64)
    ensures
        n == tool_rounds(events@, conversation@, turn).len(),
{
    let mut ids: Vec<String> = Vec::new();
    let mut i: usize = 0;
    while i < events.len()
        invariant
            i <= events@.len(),
            crate::text::texts(ids@) == tool_rounds(events@.subrange(0, i as int), conversation@, turn),
        decreases events@.len() - i,
    {
        let ghost rest = tool_rounds(events@.subrange(0, i as int), conversation@, turn);
        proof {
            assert(events@.subrange(0, i + 1).drop_last() =~= events@.subrange(0, i as int));
        }
        match &events[i].payload {
            EventPayload::ToolCall { turn: t, conversation: c, request_id, .. } => {
                if *t == turn && in_conversation(c, conversation) {
                    let mut seen = false;
                    let mut k: usize = 0;
                    while k < ids.len()
                        invariant
                            k <= ids@.len(),
                            crate::text::texts(ids@) == rest,
                            seen ==> rest.contains(request_id@),
                            !seen ==> forall|q: int| 0 <= q < k ==> (#[trigger] ids@[q])@ != request_id@,
                        decreases ids@.len() - k,
                    {
                        if same_text(ids[k].as_str(), request_id.as_str()) {
                            proof {
                                assert(rest[k as int] == request_id@);
                            }
                            seen = true;
                        }
                        k = k + 1;
                    }
                    if !seen {
                        proof {
                            assert forall|q: int| 0 <= q < rest.len() implies rest[q] != request_id@ by {
                                assert(rest[q] == ids@[q]@);
                            }
                        }
                        ids.push(request_id.clone());
                        proof {
                            assert(crate::text::texts(ids@) =~= rest.push(request_id@));
                        }
                    }
                }
            },
            _ => {},
        }
        i = i + 1;
    }
    proof {
        assert(events@.subrange(0, events@.len() as int) =~= events@);
        lemma_tool_rounds_bound(events@, conversation@, turn);
    }
    ids.len() as u64
}

/// The last input token total that a model response recorded, if any did.
pub open spec fn last_recorded_input(events: Seq<StoredEvent>) -> Option<u32>
    decreases events.len(),
{
    if events.len() == 0 {
        None
    } else {
        match events.last().payload {
            EventPayload::ModelResponse { input_tokens_total: Some(n), .. } => Some(n),
            _ => last_recorded_input(events.drop_last()),
        }
    }
}

/// The input token total of the last model response that recorded one.
pub fn last_input_tokens(events: &[StoredEvent]) -> (r: Option<u32>)
    ensures
        r == last_recorded_input(events@),
{
    let mut i: usize = events.len();
    assert(events@.subrange(0, i as int) =~= events@);
    while i > 0
        invariant
            i <= events@.len(),
            last_recorded_input(events@) == last_recorded_input(events@.subrange(0, i as int)),
        decreases i,
    {
        let ghost pre = events@.subrange(0, i as int);
        proof {
            assert(pre.drop_last() =~= events@.subrange(0, i - 1));
            assert(pre.last() == events@[i - 1]);
        }
        match &events[i - 1].payload {
            EventPayload::ModelResponse { input_tokens_total: Some(n), .. } => {
                return Some(*n);
            },
            _ => {},
        }
        i = i - 1;
    }
    None
}

/// The wire formats whose usage reports the runtime reads.
#[derive(Debug, Clone, Copy, PartialEq, Eq, Structural)]
pub enum ProviderKind {
    Anthropic,
    OpenAiResponses,
    OpenAiCompatible,
}

/// The input tokens that a usage report counts, if it has the field the format requires.
pub open spec fn usage_input_total(kind: ProviderKind, usage: JsonView) -> Option<nat> {
    match kind {
        ProviderKind::OpenAiCompatible => match json_u64_field(usage, "prompt_tokens"@) {
            Some(n) => Some(n as nat),
            None => None,
        },
        _ => match json_u64_field(usage, "input_tokens"@) {
            Some(n) => Some(n as nat + crate::recovery::count_of(json_u64_field(usage, "cache_read_input_tokens"@))
                + crate::recovery::count_of(json_u64_field(usage, "cache_creation_input_tokens"@))),
            None => None,
        },
    }
}

/// The input tokens of a usage report: `None` when the required field is missing, the
/// total is zero, or it does not fit in 32 bits.
pub fn extract_input_tokens(kind: &ProviderKind, usage: &JsonValue) -> (r: Option<u32>)
    requires
        usage_input_total(*kind, usage@) matches Some(t) ==> t <= u64::MAX,
    ensures
        r == (match usage_input_total(*kind, usage@) {
            Some(t) => if 0 < t <= u32::MAX {
                Some(t as u32)
            } else {
                None
            },
            None => None,
        }),
{
    let total: u64 = match kind {
        ProviderKind::OpenAiCompatible => match usage.u64_field("prompt_tokens") {
            Some(n) => n,
            None => {
                return None;
            },
        },
        _ => {
            let input = match usage.u64_field("input_tokens") {
                Some(n) => n,
                None => {
                    return None;
                },
            };
            let read: u64 = match usage.u64_field("cache_read_input_tokens") {
                Some(n) => n,
                None => 0,
            };
            let creation: u64 = match usage.u64_field("cache_creation_input_tokens") {
                Some(n) => n,
                None => 0,
            };
            input + read + creation
        },
    };
    if total > 0 && total <= 0xffff_ffffu64 {
        Some(total as u32)
    } else {
        None
    }
}

/// A tool call waiting to be processed, with what the host is shown of it.
#[derive(Debug, PartialEq, Eq)]
pub struct QueuedToolCall {
    pub tool_call: ProviderToolCall,
    pub display_summary: String,
}

/// What a resumed turn picks up: every call that awaits a permission decision is queued
/// again; the first request is the one asked first and the others wait behind it.
#[derive(Debug, PartialEq, Eq)]
pub struct ResumedState {
    pub queued_tool_calls: Vec<QueuedToolCall>,
    pub resumed_permission_requests: Vec<PermissionRequest>,
    pub first_request: Option<PermissionRequest>,
}

/// The pending permissions of turn `turn`, in order.
pub open spec fn pending_of_turn(pending: Seq<PendingPermissionLifecycle>, turn: u64) -> Seq<
    PendingPermissionLifecycle,
> {
    pending.filter(|p: PendingPermissionLifecycle| p.turn == turn)
}

/// What a resumed turn `turn` picks up from the open tool calls.
pub fn resumed_state(lifecycle: Option<&LifecycleState>, turn: u64) -> (s: ResumedState)
    ensures
        lifecycle is None ==> s.queued_tool_calls@.len() == 0 && s.resumed_permission_requests@.len()
            == 0 && s.first_request is None,
        lifecycle matches Some(l) ==> {
            let p = pending_of_turn(l.pending_permissions@, turn);
            &&& s.queued_tool_calls@.len() == p.len()
            &&& forall|i: int|
                0 <= i < p.len() ==> (#[trigger] s.queued_tool_calls@[i]).tool_call@ == p[i].tool_call@
                    && s.queued_tool_calls@[i].display_summary@ == p[i].request.summary@
            &&& (p.len() == 0 ==> s.first_request is None)
            &&& (p.len() > 0 ==> (s.first_request matches Some(r) && r@ == p[0].request@))
            &&& s.resumed_permission_requests@.len() == if p.len() > 0 {
                p.len() - 1
            } else {
                0
            }
            &&& forall|i: int|
                0 <= i < s.resumed_permission_requests@.len() ==> (
                #[trigger] s.resumed_permission_requests@[i])@ == p[i + 1].request@
        },
{
    let mut queued_tool_calls: Vec<QueuedToolCall> = Vec::new();
    let mut resumed_permission_requests: Vec<PermissionRequest> = Vec::new();
    let mut first_request: Option<PermissionRequest> = None;
    let l = match lifecycle {
        None => {
            return ResumedState { queued_tool_calls, resumed_permission_requests, first_request };
        },
        Some(l) => l,
    };
    let ghost all = l.pending_permissions@;
    let mut i: usize = 0;
    while i < l.pending_permissions.len()
        invariant
            i <= all.len(),
            all == l.pending_permissions@,
            ({
                let p = pending_of_turn(all.subrange(0, i as int), turn);
                &&& queued_tool_calls@.len() == p.len()
                &&& forall|k: int|
                    0 <= k < p.len() ==> (#[trigger] queued_tool_calls@[k]).tool_call@
                        == p[k].tool_call@ && queued_tool_calls@[k].display_summary@
                        == p[k].request.summary@
                &&& (p.len() == 0 ==> first_request is None)
                &&& (p.len() > 0 ==> (first_request matches Some(r) && r@ == p[0].request@))
                &&& resumed_permission_requests@.len() == if p.len() > 0 {
                    p.len() - 1
                } else {
                    0
                }
                &&& forall|k: int|
                    0 <= k < resumed_permission_requests@.len() ==> (
                    #[trigger] resumed_permission_requests@[k])@ == p[k + 1].request@
            }),
        decreases all.len() - i,
    {
        let ghost before = all.subrange(0, i as int);
        let ghost after = all.subrange(0, i + 1);
        proof {
            assert(after =~= before.push(all[i as int]));
            before.lemma_filter_push(all[i as int], |p: PendingPermissionLifecycle| p.turn == turn);
        }
        let pending = &l.pending_permissions[i];
        if pending.turn == turn {
            let ghost pb = pending_of_turn(before, turn);
            let ghost pa = pending_of_turn(after, turn);
            assert(pa == pb.push(*pending));
            if first_request.is_none() {
                first_request = Some(pending.request.duplicate());
            } else {
                resumed_permission_requests.push(pending.request.duplicate());
            }
            queued_tool_calls.push(
                QueuedToolCall {
                    tool_call: pending.tool_call.duplicate(),
                    display_summary: pending.request.summary.clone(),
                },
            );
        }
        i = i + 1;
    }
    proof {
        assert(all.subrange(0, all.len() as int) =~= all);
    }
    ResumedState { queued_tool_calls, resumed_permission_requests, first_request }
}

/// The open tool call of `conversation` that blocks resuming, if any: the first in order.
pub open spec fn first_open_in(open: Seq<OpenToolLifecycle>, conversation: Seq<char>) -> Option<int> {
    if exists|i: int| 0 <= i < open.len() && conversation_of(#[trigger] open[i].conversation) == conversation {
        Some(
            choose|i: int|
                0 <= i < open.len() && conversation_of(#[trigger] open[i].conversation)
                    == conversation && forall|k: int|
                    0 <= k < i ==> conversation_of(#[trigger] open[k].conversation) != conversation,
        )
    } else {
        None
    }
}

/// The message that refuses to resume over an unresolved tool call.
pub open spec fn interrupted_message(session_id: Seq<char>, tool_call_id: Seq<char>, turn: u64) -> Seq<
    char,
> {
    "session "@ + session_id + " has unresolved tool call "@ + tool_call_id + " from turn "@
        + decimal(turn as nat) + "; review the session before resuming"@
}

/// Refuses to resume a conversation that still has an open tool call without a result.
pub fn reject_interrupted_open_tools(
    lifecycle: Option<&LifecycleState>,
    session_id: &str,
    conversation: &str,
) -> (r: Result<(), Error>)
    ensures
        r is Ok <==> (lifecycle is None || first_open_in(lifecycle->0.open_tools@, conversation@)
            is None),
        r matches Err(e) ==> lifecycle matches Some(l) && first_open_in(l.open_tools@, conversation@)
            matches Some(i) && e == Error::InterruptedOpenTool(e->InterruptedOpenTool_0)
            && e->InterruptedOpenTool_0@ == interrupted_message(
            session_id@,
            l.open_tools@[i].tool_call.id@,
            l.open_tools@[i].turn,
        ),
{
    let l = match lifecycle {
        None => {
            return Ok(());
        },
        Some(l) => l,
    };
    assert(lifecycle->0 == l);
    let ghost open = l.open_tools@;
    let mut i: usize = 0;
    while i < l.open_tools.len()
        invariant
            i <= open.len(),
            open == l.open_tools@,
            lifecycle->0 == l,
            lifecycle is Some,
            forall|k: int| 0 <= k < i ==> conversation_of(#[trigger] open[k].conversation) != conversation@,
        decreases open.len() - i,
    {
        let o = &l.open_tools[i];
        if in_conversation(&o.conversation, conversation) {
            proof {
                assert(conversation_of(open[i as int].conversation) == conversation@);
                assert(0 <= i < open.len() && conversation_of(open[i as int].conversation)
                    == conversation@ && forall|k: int|
                    0 <= k < i ==> conversation_of(#[trigger] open[k].conversation) != conversation@);
                let c = choose|c: int|
                    0 <= c < open.len() && conversation_of(#[trigger] open[c].conversation)
                        == conversation@ && forall|k: int|
                        0 <= k < c ==> conversation_of(#[trigger] open[k].conversation) != conversation@;
                if c < i {
                    assert(conversation_of(open[c].conversation) != conversation@);
                } else if c > i {
                    assert(conversation_of(open[i as int].conversation) != conversation@);
                }
                assert(first_open_in(open, conversation@) == Some(i as int));
            }
            let mut m = String::from_str("session ");
            m.append(session_id);
            m.append(" has unresolved tool call ");
            m.append(o.tool_call.id.as_str());
            m.append(" from turn ");
            m.append(u64_to_decimal(o.turn).as_str());
            m.append("; review the session before resuming");
            return Err(Error::InterruptedOpenTool(m));
        }
        i = i + 1;
    }
    Ok(())
}

/// The turn that a session start works on: the turn of the first permission still
/// awaiting a decision, which resumes, or else the turn after the last started one.
pub fn session_turn(lifecycle: Option<&LifecycleState>, events: &[StoredEvent]) -> (r: (u64, bool))
    requires
        turns_below_max(events@),
    ensures
        match lifecycle {
            Some(l) if l.pending_permissions@.len() > 0 => r == (l.pending_permissions@[0].turn, true),
            _ => r.0 == max_started_turn(events@) + 1 && !r.1,
        },
{
    match lifecycle {
        Some(l) => if l.pending_permissions.len() > 0 {
            return (l.pending_permissions[0].turn, true);
        },
        None => {},
    }
    (next_turn(events), false)
}

} // verus!
