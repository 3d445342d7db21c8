//! What a streamed model response builds up, chunk by chunk: the visible text (with any
//! handoff block taken out), the thinking, the announced tool calls and their argument
//! text, the stop reason and the usage.

use vstd::prelude::*;

use crate::error::Error;
use crate::handoff::{feed, HandoffDetector};
use crate::json::{JsonValue, JsonView};
use crate::recovery::ProviderFailureKind;
use crate::text::{decimal, u64_to_decimal};
use crate::types::{ProviderToolCall, ProviderUsage};

verus! {

/// What the JSON reader made of a tool call's argument text.
#[derive(Debug, PartialEq, Eq)]
pub enum BlockArgs {
    Parsed(JsonValue),
    /// The text is not JSON; the reader's explanation.
    Invalid(String),
}

/// One chunk of a provider's stream.
#[derive(Debug, PartialEq, Eq)]
pub enum ProviderChunk {
    StreamStart { request_id: String },
    TextDelta { text: String },
    ThinkingDelta { text: String },
    ToolCallStart { index: u64, id: String, name: String },
    ToolCallArgDelta { index: u64, fragment: String },
    /// The end of a content block; for a tool call, what its argument text reads as.
    ContentBlockStop { index: u64, args: BlockArgs },
    StopReason { reason: String },
    StreamUsage {
        input_tokens: u64,
        output_tokens: u64,
        cache_read_input_tokens: u64,
        cache_creation_input_tokens: u64,
    },
    ServerError { code: String, message: String },
    StreamEnd,
}

/// What a streamed response has built up so far.
pub struct StreamState {
    pub provider_request_id: Option<String>,
    pub accumulated_text: String,
    pub accumulated_thinking: String,
    /// A thinking period is running (the host measures its duration).
    pub thinking_open: bool,
    pub tool_calls: Vec<ProviderToolCall>,
    pub tool_arg_buffers: Vec<(u64, String)>,
    pub stop_reason: Option<String>,
    pub usage: Option<ProviderUsage>,
    pub handoff_detector: Option<HandoffDetector>,
}

/// What a chunk leads to.
#[derive(Debug, PartialEq, Eq)]
pub enum ChunkOutcome {
    /// Hand this visible text to the host.
    EmitText(String),
    /// Hand this thinking text to the host.
    EmitThinking(String),
    /// Nothing to hand out for now; end this poll.
    Quiet,
    /// Read the next chunk.
    Continue,
    /// The response failed.
    Fail(Error),
}

/// A chunk's outcome, and whether it ended or began a thinking period.
#[derive(Debug, PartialEq, Eq)]
pub struct ChunkStep {
    pub outcome: ChunkOutcome,
    pub thinking_closed: bool,
    pub thinking_opened: bool,
}

/// A stream at its start.
pub fn new_stream_state(handoff_detector: Option<HandoffDetector>) -> (s: StreamState)
    ensures
        s.provider_request_id is None,
        s.accumulated_text@.len() == 0,
        s.accumulated_thinking@.len() == 0,
        !s.thinking_open,
        s.tool_calls@.len() == 0,
        s.tool_arg_buffers@.len() == 0,
        s.stop_reason is None,
        s.usage is None,
        s.handoff_detector == handoff_detector,
{
    StreamState {
        provider_request_id: None,
        accumulated_text: String::new(),
        accumulated_thinking: String::new(),
        thinking_open: false,
        tool_calls: Vec::new(),
        tool_arg_buffers: Vec::new(),
        stop_reason: None,
        usage: None,
        handoff_detector,
    }
}

/// The first argument buffer of tool call `index`, if any.
pub open spec fn first_buffer(b: Seq<(u64, String)>, index: u64) -> Option<int> {
    if exists|i: int| 0 <= i < b.len() && (#[trigger] b[i]).0 == index {
        Some(
            choose|i: int|
                0 <= i < b.len() && (#[trigger] b[i]).0 == index && forall|k: int|
                    0 <= k < i ==> (#[trigger] b[k]).0 != index,
        )
    } else {
        None
    }
}

/// The first announced tool call with index `index`, if any.
pub open spec fn first_call(c: Seq<ProviderToolCall>, index: u64) -> Option<int> {
    if exists|i: int| 0 <= i < c.len() && (#[trigger] c[i]).index == index {
        Some(
            choose|i: int|
                0 <= i < c.len() && (#[trigger] c[i]).index == index && forall|k: int|
                    0 <= k < i ==> (#[trigger] c[k]).index != index,
        )
    } else {
        None
    }
}

fn find_buffer(b: &Vec<(u64, String)>, index: u64) -> (r: Option<usize>)
    ensures
        match r {
            Some(i) => first_buffer(b@, index) == Some(i as int) && i < b@.len() && b@[i as int].0 == index,
            None => first_buffer(b@, index) is None,
        },
{
    let mut i: usize = 0;
    while i < b.len()
        invariant
            i <= b@.len(),
            forall|k: int| 0 <= k < i ==> (#[trigger] b@[k]).0 != index,
        decreases b@.len() - i,
    {
        if b[i].0 == index {
            proof {
                let c = choose|c: int|
                    0 <= c < b@.len() && (#[trigger] b@[c]).0 == index && forall|k: int|
                        0 <= k < c ==> (#[trigger] b@[k]).0 != index;
                if c < i {
                    assert(b@[c].0 != index);
                } else if c > i {
                    assert(b@[i as int].0 != index);
                }
            }
            return Some(i);
        }
        i = i + 1;
    }
    None
}

fn find_call(c: &Vec<ProviderToolCall>, index: u64) -> (r: Option<usize>)
    ensures
        match r {
            Some(i) => first_call(c@, index) == Some(i as int) && i < c@.len() && c@[i as int].index == index,
            None => first_call(c@, index) is None,
        },
{
    let mut i: usize = 0;
    while i < c.len()
        invariant
            i <= c@.len(),
            forall|k: int| 0 <= k < i ==> (#[trigger] c@[k]).index != index,
        decreases c@.len() - i,
    {
        if c[i].index == index {
            proof {
                let w = choose|w: int|
                    0 <= w < c@.len() && (#[trigger] c@[w]).index == index && forall|k: int|
                        0 <= k < w ==> (#[trigger] c@[k]).index != index;
                if w < i {
                    assert(c@[w].index != index);
                } else if w > i {
                    assert(c@[i as int].index != index);
                }
            }
            return Some(i);
        }
        i = i + 1;
    }
    None
}

/// A usage count so far, or nothing.
pub open spec fn so_far(v: Option<u64>) -> int {
    match v {
        Some(n) => n as int,
        None => 0,
    }
}

/// The usage counts so far, as numbers (nothing counts as zero).
pub open spec fn usage_so_far(u: Option<ProviderUsage>) -> (int, int, int, int) {
    match u {
        Some(x) => (
            so_far(x.input_tokens),
            so_far(x.output_tokens),
            so_far(x.cache_read_input_tokens),
            so_far(x.cache_creation_input_tokens),
        ),
        None => (0, 0, 0, 0),
    }
}

/// Whether adding the chunk's usage keeps every count within `u64`.
pub open spec fn usage_fits(state_usage: Option<ProviderUsage>, chunk: ProviderChunk) -> bool {
    match chunk {
        ProviderChunk::StreamUsage {
            input_tokens,
            output_tokens,
            cache_read_input_tokens,
            cache_creation_input_tokens,
        } => {
            let u = usage_so_far(state_usage);
            &&& u.0 + input_tokens <= u64::MAX
            &&& u.1 + output_tokens <= u64::MAX
            &&& u.2 + cache_read_input_tokens <= u64::MAX
            &&& u.3 + cache_creation_input_tokens <= u64::MAX
        },
        _ => true,
    }
}

/// The message of a tool call whose argument text is not JSON.
pub open spec fn invalid_args_message(calls: Seq<ProviderToolCall>, index: u64, explanation: Seq<char>) -> Seq<
    char,
> {
    "tool call "@ + match first_call(calls, index) {
        Some(i) => calls[i].id@,
        None => "index "@ + decimal(index as nat),
    } + " has invalid JSON arguments: "@ + explanation
}

/// Whether nothing but the named parts of the state changed.
pub open spec fn same_calls(a: &StreamState, b: &StreamState) -> bool {
    a.tool_calls@ == b.tool_calls@ && a.tool_arg_buffers@ == b.tool_arg_buffers@
}

/// A step that reads on, with no thinking period ended or begun.
pub open spec fn plain_continue(step: ChunkStep) -> bool {
    step == (ChunkStep { outcome: ChunkOutcome::Continue, thinking_closed: false, thinking_opened: false })
}

/// A text chunk: it ends a thinking period and, through the handoff detector when there is
/// one, adds and hands out the newly visible text (nothing to hand out when none is).
pub open spec fn text_effect(before: StreamState, after: StreamState, text: Seq<char>, step: ChunkStep) -> bool {
    &&& !after.thinking_open
    &&& step.thinking_closed == before.thinking_open
    &&& !step.thinking_opened
    &&& same_calls(&after, &before)
    &&& match before.handoff_detector {
        Some(d) => {
            let f = feed(d@, text);
            &&& after.handoff_detector matches Some(nd) && nd@ == (crate::handoff::DetectorModel {
                user_text: seq![],
                ..f
            })
            &&& f.user_text.len() > 0 ==> after.accumulated_text@ == before.accumulated_text@ + f.user_text
            &&& f.user_text.len() > 0 ==> (step.outcome matches ChunkOutcome::EmitText(t) && t@ == f.user_text)
            &&& f.user_text.len() == 0 ==> after.accumulated_text@ == before.accumulated_text@
            &&& f.user_text.len() == 0 ==> step.outcome == ChunkOutcome::Quiet
        },
        None => {
            &&& after.handoff_detector is None
            &&& after.accumulated_text@ == before.accumulated_text@ + text
            &&& step.outcome matches ChunkOutcome::EmitText(t) && t@ == text
        },
    }
}

/// A thinking chunk: it begins a thinking period when none runs and adds to the thinking.
pub open spec fn thinking_effect(before: StreamState, after: StreamState, text: Seq<char>, step: ChunkStep) -> bool {
    &&& after.thinking_open
    &&& step.thinking_opened == !before.thinking_open
    &&& !step.thinking_closed
    &&& after.accumulated_thinking@ == before.accumulated_thinking@ + text
    &&& after.accumulated_text@ == before.accumulated_text@
    &&& same_calls(&after, &before)
    &&& step.outcome matches ChunkOutcome::EmitThinking(t) && t@ == text
}

/// The start of a tool call: it ends a thinking period and opens the call, with empty
/// object arguments, and its argument buffer.
pub open spec fn call_start_effect(
    before: StreamState,
    after: StreamState,
    index: u64,
    id: Seq<char>,
    name: Seq<char>,
    step: ChunkStep,
) -> bool {
    &&& !after.thinking_open
    &&& step == (ChunkStep {
        outcome: ChunkOutcome::Continue,
        thinking_closed: before.thinking_open,
        thinking_opened: false,
    })
    &&& after.tool_calls@.len() == before.tool_calls@.len() + 1
    &&& after.tool_calls@.drop_last() == before.tool_calls@
    &&& after.tool_calls@.last()@ == (crate::types::ToolCallView {
        id,
        name,
        args: JsonView::Object(Seq::empty()),
        index,
    })
    &&& after.tool_arg_buffers@.len() == before.tool_arg_buffers@.len() + 1
    &&& after.tool_arg_buffers@.drop_last() == before.tool_arg_buffers@
    &&& after.tool_arg_buffers@.last().0 == index
    &&& after.tool_arg_buffers@.last().1@.len() == 0
}

/// An argument fragment: it goes to the call's first buffer.
pub open spec fn fragment_effect(
    before: StreamState,
    after: StreamState,
    index: u64,
    fragment: Seq<char>,
    step: ChunkStep,
) -> bool {
    &&& plain_continue(step)
    &&& after.thinking_open == before.thinking_open
    &&& after.tool_calls@ == before.tool_calls@
    &&& after.tool_arg_buffers@.len() == before.tool_arg_buffers@.len()
    &&& forall|k: int|
        0 <= k < before.tool_arg_buffers@.len() ==> (#[trigger] after.tool_arg_buffers@[k]).0
            == before.tool_arg_buffers@[k].0 && after.tool_arg_buffers@[k].1@ == if first_buffer(
            before.tool_arg_buffers@,
            index,
        ) == Some(k) {
            before.tool_arg_buffers@[k].1@ + fragment
        } else {
            before.tool_arg_buffers@[k].1@
        }
}

/// The end of a block: a tool call with a buffer gets the arguments that the buffer reads
/// as; text that is not JSON fails the response.
pub open spec fn block_stop_effect(
    before: StreamState,
    after: StreamState,
    index: u64,
    args: BlockArgs,
    step: ChunkStep,
) -> bool {
    &&& !step.thinking_closed && !step.thinking_opened
    &&& after.thinking_open == before.thinking_open
    &&& after.tool_arg_buffers@ == before.tool_arg_buffers@
    &&& match first_buffer(before.tool_arg_buffers@, index) {
        None => after.tool_calls@ == before.tool_calls@ && step.outcome == ChunkOutcome::Continue,
        Some(_) => match args {
            BlockArgs::Parsed(v) => step.outcome == ChunkOutcome::Continue && after.tool_calls@.len()
                == before.tool_calls@.len() && forall|k: int|
                0 <= k < before.tool_calls@.len() ==> (#[trigger] after.tool_calls@[k])@ == if first_call(
                    before.tool_calls@,
                    index,
                ) == Some(k) {
                    crate::types::ToolCallView { args: v@, ..before.tool_calls@[k]@ }
                } else {
                    before.tool_calls@[k]@
                },
            BlockArgs::Invalid(e) => after.tool_calls@ == before.tool_calls@ && (
            step.outcome matches ChunkOutcome::Fail(err) && err matches Error::Provider {
                kind,
                message,
                provider,
                model,
            } && kind == ProviderFailureKind::InvalidRequest && provider is None && model is None
                && message@ == invalid_args_message(before.tool_calls@, index, e@)),
        },
    }
}

/// A stop reason: it ends a thinking period and is kept.
pub open spec fn stop_effect(before: StreamState, after: StreamState, reason: Seq<char>, step: ChunkStep) -> bool {
    &&& !after.thinking_open
    &&& step == (ChunkStep {
        outcome: ChunkOutcome::Continue,
        thinking_closed: before.thinking_open,
        thinking_opened: false,
    })
    &&& after.stop_reason matches Some(r) && r@ == reason
    &&& same_calls(&after, &before)
}

/// Usage: each count adds to the counts so far.
pub open spec fn usage_effect(
    before: StreamState,
    after: StreamState,
    i: u64,
    o: u64,
    r: u64,
    w: u64,
    step: ChunkStep,
) -> bool {
    let u = usage_so_far(before.usage);
    &&& plain_continue(step)
    &&& after.thinking_open == before.thinking_open
    &&& after.usage == Some(
        ProviderUsage {
            input_tokens: Some((u.0 + i) as u64),
            output_tokens: Some((u.1 + o) as u64),
            cache_read_input_tokens: Some((u.2 + r) as u64),
            cache_creation_input_tokens: Some((u.3 + w) as u64),
        },
    )
    &&& same_calls(&after, &before)
}

/// A server error fails the response with its code and message.
pub open spec fn server_error_effect(
    before: StreamState,
    after: StreamState,
    code: Seq<char>,
    message: Seq<char>,
    step: ChunkStep,
) -> bool {
    &&& after.thinking_open == before.thinking_open
    &&& !step.thinking_closed && !step.thinking_opened
    &&& same_calls(&after, &before)
    &&& step.outcome matches ChunkOutcome::Fail(err) && err matches Error::Provider {
        kind,
        message: m,
        provider,
        model,
    } && kind == ProviderFailureKind::Unknown && provider is None && model is None && m@ == code + ": "@
        + message
}

/// What one chunk does to the state, by its kind.
pub open spec fn chunk_effect(before: StreamState, after: StreamState, chunk: ProviderChunk, step: ChunkStep) -> bool {
    match chunk {
        ProviderChunk::StreamStart { request_id } => {
            &&& after.provider_request_id matches Some(r) && r@ == request_id@
            &&& after.accumulated_text@ == before.accumulated_text@
            &&& after.thinking_open == before.thinking_open
            &&& same_calls(&after, &before)
            &&& plain_continue(step)
        },
        ProviderChunk::TextDelta { text } => text_effect(before, after, text@, step),
        ProviderChunk::ThinkingDelta { text } => thinking_effect(before, after, text@, step),
        ProviderChunk::ToolCallStart { index, id, name } => call_start_effect(before, after, index, id@, name@, step),
        ProviderChunk::ToolCallArgDelta { index, fragment } => fragment_effect(before, after, index, fragment@, step),
        ProviderChunk::ContentBlockStop { index, args } => block_stop_effect(before, after, index, args, step),
        ProviderChunk::StopReason { reason } => stop_effect(before, after, reason@, step),
        ProviderChunk::StreamUsage {
            input_tokens,
            output_tokens,
            cache_read_input_tokens,
            cache_creation_input_tokens,
        } => usage_effect(
            before,
            after,
            input_tokens,
            output_tokens,
            cache_read_input_tokens,
            cache_creation_input_tokens,
            step,
        ),
        ProviderChunk::ServerError { code, message } => server_error_effect(before, after, code@, message@, step),
        ProviderChunk::StreamEnd => {
            &&& after.thinking_open == before.thinking_open
            &&& same_calls(&after, &before)
            &&& plain_continue(step)
        },
    }
}

fn on_text(state: &mut StreamState, text: String) -> (step: ChunkStep)
    ensures
        text_effect(*old(state), *final(state), text@, step),
{
    let closed = state.thinking_open;
    state.thinking_open = false;
    match state.handoff_detector.take() {
        Some(mut d) => {
            let visible = d.process(text.as_str());
            state.handoff_detector = Some(d);
            match visible {
                Some(v) => {
                    state.accumulated_text.append(v.as_str());
                    ChunkStep { outcome: ChunkOutcome::EmitText(v), thinking_closed: closed, thinking_opened: false }
                },
                None => ChunkStep { outcome: ChunkOutcome::Quiet, thinking_closed: closed, thinking_opened: false },
            }
        },
        None => {
            state.accumulated_text.append(text.as_str());
            ChunkStep { outcome: ChunkOutcome::EmitText(text), thinking_closed: closed, thinking_opened: false }
        },
    }
}

fn on_thinking(state: &mut StreamState, text: String) -> (step: ChunkStep)
    ensures
        thinking_effect(*old(state), *final(state), text@, step),
{
    let opened = !state.thinking_open;
    state.thinking_open = true;
    state.accumulated_thinking.append(text.as_str());
    ChunkStep { outcome: ChunkOutcome::EmitThinking(text), thinking_closed: false, thinking_opened: opened }
}

fn on_call_start(state: &mut StreamState, index: u64, id: String, name: String) -> (step: ChunkStep)
    ensures
        call_start_effect(*old(state), *final(state), index, id@, name@, step),
{
    let closed = state.thinking_open;
    state.thinking_open = false;
    let ghost calls = state.tool_calls@;
    let ghost bufs = state.tool_arg_buffers@;
    state.tool_calls.push(ProviderToolCall { id, name, args: JsonValue::empty_object(), index });
    state.tool_arg_buffers.push((index, String::new()));
    proof {
        assert(state.tool_calls@.drop_last() =~= calls);
        assert(state.tool_arg_buffers@.drop_last() =~= bufs);
    }
    ChunkStep { outcome: ChunkOutcome::Continue, thinking_closed: closed, thinking_opened: false }
}

fn on_fragment(state: &mut StreamState, index: u64, fragment: String) -> (step: ChunkStep)
    ensures
        fragment_effect(*old(state), *final(state), index, fragment@, step),
{
    match find_buffer(&state.tool_arg_buffers, index) {
        Some(i) => {
            let ghost before = state.tool_arg_buffers@;
            let mut buf = state.tool_arg_buffers[i].1.clone();
            buf.append(fragment.as_str());
            state.tool_arg_buffers.set(i, (index, buf));
            proof {
                assert forall|k: int| 0 <= k < before.len() implies (#[trigger] state.tool_arg_buffers@[k]).0
                    == before[k].0 && state.tool_arg_buffers@[k].1@ == if first_buffer(before, index) == Some(k) {
                    before[k].1@ + fragment@
                } else {
                    before[k].1@
                } by {
                    if k != i {
                        assert(state.tool_arg_buffers@[k] == before[k]);
                    } else {
                        assert(state.tool_arg_buffers@[k].1@ == before[k].1@ + fragment@);
                    }
                }
            }
        },
        None => {},
    }
    ChunkStep { outcome: ChunkOutcome::Continue, thinking_closed: false, thinking_opened: false }
}

fn on_block_stop(state: &mut StreamState, index: u64, args: BlockArgs) -> (step: ChunkStep)
    ensures
        block_stop_effect(*old(state), *final(state), index, args, step),
{
    match find_buffer(&state.tool_arg_buffers, index) {
        None => ChunkStep { outcome: ChunkOutcome::Continue, thinking_closed: false, thinking_opened: false },
        Some(_) => match args {
            BlockArgs::Parsed(v) => {
                let ghost before = state.tool_calls@;
                let ghost vv = v@;
                match find_call(&state.tool_calls, index) {
                    Some(c) => {
                        let old_call = &state.tool_calls[c];
                        let updated = ProviderToolCall {
                            id: old_call.id.clone(),
                            name: old_call.name.clone(),
                            args: v,
                            index: old_call.index,
                        };
                        state.tool_calls.set(c, updated);
                        proof {
                            assert forall|k: int| 0 <= k < before.len() implies (#[trigger] state.tool_calls@[k])@
                                == if first_call(before, index) == Some(k) {
                                crate::types::ToolCallView { args: vv, ..before[k]@ }
                            } else {
                                before[k]@
                            } by {
                                if k != c {
                                    assert(state.tool_calls@[k] == before[k]);
                                }
                            }
                        }
                    },
                    None => {},
                }
                ChunkStep { outcome: ChunkOutcome::Continue, thinking_closed: false, thinking_opened: false }
            },
            BlockArgs::Invalid(e) => {
                let mut m = String::from_str("tool call ");
                match find_call(&state.tool_calls, index) {
                    Some(c) => {
                        m.append(state.tool_calls[c].id.as_str());
                    },
                    None => {
                        m.append("index ");
                        m.append(u64_to_decimal(index).as_str());
                    },
                }
                m.append(" has invalid JSON arguments: ");
                m.append(e.as_str());
                proof {
                    reveal_strlit("tool call ");
                    reveal_strlit("index ");
                    reveal_strlit(" has invalid JSON arguments: ");
                    assert(m@ =~= invalid_args_message(state.tool_calls@, index, e@));
                }
                ChunkStep {
                    outcome: ChunkOutcome::Fail(
                        Error::Provider {
                            kind: ProviderFailureKind::InvalidRequest,
                            message: m,
                            provider: None,
                            model: None,
                        },
                    ),
                    thinking_closed: false,
                    thinking_opened: false,
                }
            },
        },
    }
}

fn on_usage(state: &mut StreamState, i: u64, o: u64, r: u64, w: u64) -> (step: ChunkStep)
    requires
        usage_so_far(old(state).usage).0 + i <= u64::MAX,
        usage_so_far(old(state).usage).1 + o <= u64::MAX,
        usage_so_far(old(state).usage).2 + r <= u64::MAX,
        usage_so_far(old(state).usage).3 + w <= u64::MAX,
    ensures
        usage_effect(*old(state), *final(state), i, o, r, w, step),
{
    let (i0, o0, r0, w0): (u64, u64, u64, u64) = match &state.usage {
        Some(u) => (
            match u.input_tokens {
                Some(n) => n,
                None => 0,
            },
            match u.output_tokens {
                Some(n) => n,
                None => 0,
            },
            match u.cache_read_input_tokens {
                Some(n) => n,
                None => 0,
            },
            match u.cache_creation_input_tokens {
                Some(n) => n,
                None => 0,
            },
        ),
        None => (0, 0, 0, 0),
    };
    state.usage = Some(
        ProviderUsage {
            input_tokens: Some(i0 + i),
            output_tokens: Some(o0 + o),
            cache_read_input_tokens: Some(r0 + r),
            cache_creation_input_tokens: Some(w0 + w),
        },
    );
    ChunkStep { outcome: ChunkOutcome::Continue, thinking_closed: false, thinking_opened: false }
}

/// Reads one chunk of the stream into the state; [`chunk_effect`] says what each kind of
/// chunk does.
pub fn apply_chunk(state: &mut StreamState, chunk: ProviderChunk) -> (step: ChunkStep)
    requires
        usage_fits(old(state).usage, chunk),
    ensures
        chunk_effect(*old(state), *final(state), chunk, step),
{
    match chunk {
        ProviderChunk::StreamStart { request_id } => {
            state.provider_request_id = Some(request_id);
            ChunkStep { outcome: ChunkOutcome::Continue, thinking_closed: false, thinking_opened: false }
        },
        ProviderChunk::TextDelta { text } => on_text(state, text),
        ProviderChunk::ThinkingDelta { text } => on_thinking(state, text),
        ProviderChunk::ToolCallStart { index, id, name } => on_call_start(state, index, id, name),
        ProviderChunk::ToolCallArgDelta { index, fragment } => on_fragment(state, index, fragment),
        ProviderChunk::ContentBlockStop { index, args } => on_block_stop(state, index, args),
        ProviderChunk::StopReason { reason } => {
            let closed = state.thinking_open;
            state.thinking_open = false;
            state.stop_reason = Some(reason);
            ChunkStep { outcome: ChunkOutcome::Continue, thinking_closed: closed, thinking_opened: false }
        },
        ProviderChunk::StreamUsage {
            input_tokens,
            output_tokens,
            cache_read_input_tokens,
            cache_creation_input_tokens,
        } => on_usage(state, input_tokens, output_tokens, cache_read_input_tokens, cache_creation_input_tokens),
        ProviderChunk::ServerError { code, message } => {
            let mut m = code;
            m.append(": ");
            m.append(message.as_str());
            proof {
                reveal_strlit(": ");
            }
            ChunkStep {
                outcome: ChunkOutcome::Fail(
                    Error::Provider { kind: ProviderFailureKind::Unknown, message: m, provider: None, model: None },
                ),
                thinking_closed: false,
                thinking_opened: false,
            }
        },
        ProviderChunk::StreamEnd => ChunkStep {
            outcome: ChunkOutcome::Continue,
            thinking_closed: false,
            thinking_opened: false,
        },
    }
}

/// The host cancelled the turn while the stream ran: the response stops for that reason.
pub fn cancel_stream(state: &mut StreamState)
    ensures
        final(state).stop_reason matches Some(r) && r@ == "cancelled"@,
        same_calls(final(state), old(state)),
        final(state).accumulated_text@ == old(state).accumulated_text@,
{
    proof {
        reveal_strlit("cancelled");
    }
    state.stop_reason = Some(String::from_str("cancelled"));
}

} // verus!
