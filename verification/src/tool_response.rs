//! Checks of the tool calls that a streamed model response announced.

use vstd::prelude::*;

use crate::events::same_text;
use crate::json::{json_is_object, JsonValue, JsonView};
use crate::text::{chars_of, trim, trim_chars};
use crate::types::ProviderToolCall;

verus! {

/// The argument text that the stream delivered for one tool call, once read as JSON.
#[derive(Debug, PartialEq, Eq)]
pub enum ArgumentBuffer {
    /// Nothing was delivered: the call takes no arguments.
    Empty,
    /// The text read as this JSON value.
    Parsed(JsonValue),
    /// The text is not JSON.
    Malformed,
}

/// Why the announced tool calls cannot be run.
#[derive(Debug, Clone, Copy, PartialEq, Eq, Structural)]
pub enum ToolResponseError {
    InvalidLifecycle,
    MissingCalls,
    EmptyId,
    EmptyName,
    DuplicateId,
    DuplicateIndex,
    InvalidBufferMapping,
    InvalidCompletionMapping,
    InvalidArguments,
}

/// Whether a text is empty once trimmed.
pub open spec fn blank(s: Seq<char>) -> bool {
    trim(s).len() == 0
}

/// The problem of call `i` in view of the calls before it: a blank id or name, or an id
/// or index that an earlier call already has.
pub open spec fn call_problem(calls: Seq<ProviderToolCall>, i: int) -> Option<ToolResponseError> {
    if blank(calls[i].id@) {
        Some(ToolResponseError::EmptyId)
    } else if blank(calls[i].name@) {
        Some(ToolResponseError::EmptyName)
    } else if exists|j: int| 0 <= j < i && (#[trigger] calls[j]).id@ == calls[i].id@ {
        Some(ToolResponseError::DuplicateId)
    } else if exists|j: int| 0 <= j < i && (#[trigger] calls[j]).index == calls[i].index {
        Some(ToolResponseError::DuplicateIndex)
    } else {
        None
    }
}

/// The problem of the first call that has one.
pub open spec fn calls_problem(calls: Seq<ProviderToolCall>) -> Option<ToolResponseError>
    decreases calls.len(),
{
    if calls.len() == 0 {
        None
    } else {
        match calls_problem(calls.drop_last()) {
            Some(e) => Some(e),
            None => call_problem(calls, calls.len() - 1),
        }
    }
}

/// Whether some call has index `idx`.
pub open spec fn has_index(calls: Seq<ProviderToolCall>, idx: u64) -> bool {
    exists|k: int| 0 <= k < calls.len() && (#[trigger] calls[k]).index == idx
}

/// Whether every completion names a call, and none twice.
pub open spec fn completions_ok(calls: Seq<ProviderToolCall>, completions: Seq<u64>) -> bool {
    &&& forall|i: int| 0 <= i < completions.len() ==> has_index(calls, #[trigger] completions[i])
    &&& forall|i: int, j: int|
        0 <= i < j < completions.len() ==> (#[trigger] completions[i]) != (#[trigger] completions[j])
}

/// The problem of buffer `i` in view of the buffers before it: an index already buffered
/// or of no call, or arguments that are not a JSON object.
pub open spec fn buffer_problem(
    buffers: Seq<(u64, ArgumentBuffer)>,
    calls: Seq<ProviderToolCall>,
    i: int,
) -> Option<ToolResponseError> {
    if exists|j: int| 0 <= j < i && (#[trigger] buffers[j]).0 == buffers[i].0 {
        Some(ToolResponseError::InvalidBufferMapping)
    } else if !has_index(calls, buffers[i].0) {
        Some(ToolResponseError::InvalidBufferMapping)
    } else {
        match buffers[i].1 {
            ArgumentBuffer::Empty => None,
            ArgumentBuffer::Parsed(v) => if json_is_object(v@) {
                None
            } else {
                Some(ToolResponseError::InvalidArguments)
            },
            ArgumentBuffer::Malformed => Some(ToolResponseError::InvalidArguments),
        }
    }
}

/// The problem of the first buffer that has one.
pub open spec fn buffers_problem(buffers: Seq<(u64, ArgumentBuffer)>, calls: Seq<ProviderToolCall>) -> Option<
    ToolResponseError,
>
    decreases buffers.len(),
{
    if buffers.len() == 0 {
        None
    } else {
        match buffers_problem(buffers.drop_last(), calls) {
            Some(e) => Some(e),
            None => buffer_problem(buffers, calls, buffers.len() - 1),
        }
    }
}

/// Whether every call has a buffer.
pub open spec fn all_buffered(calls: Seq<ProviderToolCall>, buffers: Seq<(u64, ArgumentBuffer)>) -> bool {
    forall|k: int|
        0 <= k < calls.len() ==> exists|j: int| 0 <= j < buffers.len() && (#[trigger] buffers[j]).0 == (
        #[trigger] calls[k]).index
}

/// Why the announced calls cannot be run, if they cannot: checked in this order, the
/// stream's lifecycle, that there are calls, each call, the number of buffers and of
/// completions, the completions, each buffer, and that every call has a buffer.
pub open spec fn response_problem(
    calls: Seq<ProviderToolCall>,
    buffers: Seq<(u64, ArgumentBuffer)>,
    completions: Seq<u64>,
    stream_invalid: bool,
) -> Option<ToolResponseError> {
    if stream_invalid {
        Some(ToolResponseError::InvalidLifecycle)
    } else if calls.len() == 0 {
        Some(ToolResponseError::MissingCalls)
    } else if calls_problem(calls) is Some {
        calls_problem(calls)
    } else if buffers.len() != calls.len() {
        Some(ToolResponseError::InvalidBufferMapping)
    } else if completions.len() != calls.len() {
        Some(ToolResponseError::InvalidCompletionMapping)
    } else if !completions_ok(calls, completions) {
        Some(ToolResponseError::InvalidCompletionMapping)
    } else if buffers_problem(buffers, calls) is Some {
        buffers_problem(buffers, calls)
    } else if !all_buffered(calls, buffers) {
        Some(ToolResponseError::InvalidBufferMapping)
    } else {
        None
    }
}

/// The arguments that a buffer gives its call: an empty object when nothing came.
pub open spec fn buffer_value(b: ArgumentBuffer) -> JsonView {
    match b {
        ArgumentBuffer::Empty => JsonView::Object(Seq::empty()),
        ArgumentBuffer::Parsed(v) => v@,
        ArgumentBuffer::Malformed => JsonView::Null,
    }
}

proof fn lemma_distinct_indices(calls: Seq<ProviderToolCall>)
    requires
        calls_problem(calls) is None,
    ensures
        forall|a: int, b: int|
            0 <= a < b < calls.len() ==> (#[trigger] calls[a]).index != (#[trigger] calls[b]).index,
    decreases calls.len(),
{
    if calls.len() > 0 {
        let init = calls.drop_last();
        lemma_distinct_indices(init);
        assert forall|a: int, b: int| 0 <= a < b < calls.len() implies (#[trigger] calls[a]).index
            != (#[trigger] calls[b]).index by {
            if b < calls.len() - 1 {
                assert(init[a] == calls[a] && init[b] == calls[b]);
            } else {
                assert(call_problem(calls, calls.len() - 1) is None);
                if calls[a].index == calls[b].index {
                    assert(exists|j: int| 0 <= j < b && (#[trigger] calls[j]).index == calls[b].index);
                }
            }
        }
    }
}

proof fn lemma_calls_prefix(s: Seq<ProviderToolCall>, k: int)
    requires
        0 <= k <= s.len(),
        calls_problem(s.subrange(0, k)) is Some,
    ensures
        calls_problem(s) == calls_problem(s.subrange(0, k)),
    decreases s.len(),
{
    if k == s.len() {
        assert(s.subrange(0, k) =~= s);
    } else {
        let init = s.drop_last();
        assert(init.subrange(0, k) =~= s.subrange(0, k));
        lemma_calls_prefix(init, k);
    }
}

proof fn lemma_buffers_prefix(s: Seq<(u64, ArgumentBuffer)>, calls: Seq<ProviderToolCall>, k: int)
    requires
        0 <= k <= s.len(),
        buffers_problem(s.subrange(0, k), calls) is Some,
    ensures
        buffers_problem(s, calls) == buffers_problem(s.subrange(0, k), calls),
    decreases s.len(),
{
    if k == s.len() {
        assert(s.subrange(0, k) =~= s);
    } else {
        let init = s.drop_last();
        assert(init.subrange(0, k) =~= s.subrange(0, k));
        lemma_buffers_prefix(init, calls, k);
    }
}

fn is_blank(s: &String) -> (b: bool)
    ensures
        b == blank(s@),
{
    let c = chars_of(s.as_str());
    let t = trim_chars(&c);
    t.len() == 0
}

/// The first call that has a problem, checked one by one.
fn check_calls(calls: &Vec<ProviderToolCall>) -> (r: Option<ToolResponseError>)
    ensures
        r == calls_problem(calls@),
{
    let mut i: usize = 0;
    while i < calls.len()
        invariant
            i <= calls@.len(),
            calls_problem(calls@.subrange(0, i as int)) is None,
        decreases calls@.len() - i,
    {
        let ghost sub = calls@.subrange(0, i + 1);
        proof {
            assert(sub.drop_last() =~= calls@.subrange(0, i as int));
        }
        if is_blank(&calls[i].id) {
            proof {
                assert(calls_problem(sub) == Some(ToolResponseError::EmptyId));
                lemma_calls_prefix(calls@, i + 1);
            }
            return Some(ToolResponseError::EmptyId);
        }
        if is_blank(&calls[i].name) {
            proof {
                assert(calls_problem(sub) == Some(ToolResponseError::EmptyName));
                lemma_calls_prefix(calls@, i + 1);
            }
            return Some(ToolResponseError::EmptyName);
        }
        let mut j: usize = 0;
        while j < i
            invariant
                i < calls@.len(),
                j <= i,
                sub == calls@.subrange(0, i + 1),
                sub.drop_last() == calls@.subrange(0, i as int),
                calls_problem(calls@.subrange(0, i as int)) is None,
                !blank(sub[i as int].id@),
                !blank(sub[i as int].name@),
                forall|k: int| 0 <= k < j ==> (#[trigger] sub[k]).id@ != sub[i as int].id@,
            decreases i - j,
        {
            if same_text(calls[j].id.as_str(), calls[i].id.as_str()) {
                proof {
                    assert(sub[j as int].id@ == sub[i as int].id@);
                    assert(calls_problem(sub) == Some(ToolResponseError::DuplicateId));
                    lemma_calls_prefix(calls@, i + 1);
                }
                return Some(ToolResponseError::DuplicateId);
            }
            j = j + 1;
        }
        let mut j: usize = 0;
        while j < i
            invariant
                i < calls@.len(),
                j <= i,
                sub == calls@.subrange(0, i + 1),
                sub.drop_last() == calls@.subrange(0, i as int),
                calls_problem(calls@.subrange(0, i as int)) is None,
                !blank(sub[i as int].id@),
                !blank(sub[i as int].name@),
                forall|k: int| 0 <= k < i ==> (#[trigger] sub[k]).id@ != sub[i as int].id@,
                forall|k: int| 0 <= k < j ==> (#[trigger] sub[k]).index != sub[i as int].index,
            decreases i - j,
        {
            if calls[j].index == calls[i].index {
                proof {
                    assert(sub[j as int].index == sub[i as int].index);
                    assert(calls_problem(sub) == Some(ToolResponseError::DuplicateIndex));
                    lemma_calls_prefix(calls@, i + 1);
                }
                return Some(ToolResponseError::DuplicateIndex);
            }
            j = j + 1;
        }
        proof {
            assert(call_problem(sub, i as int) is None);
            assert(calls_problem(sub) is None);
        }
        i = i + 1;
    }
    proof {
        assert(calls@.subrange(0, calls@.len() as int) =~= calls@);
    }
    None
}

/// Whether some call has index `idx`; where it is, when it has.
fn find_index(calls: &Vec<ProviderToolCall>, idx: u64) -> (r: Option<usize>)
    ensures
        r is Some <==> has_index(calls@, idx),
        r matches Some(p) ==> p < calls@.len() && calls@[p as int].index == idx,
{
    let mut k: usize = 0;
    while k < calls.len()
        invariant
            k <= calls@.len(),
            forall|q: int| 0 <= q < k ==> (#[trigger] calls@[q]).index != idx,
        decreases calls@.len() - k,
    {
        if calls[k].index == idx {
            return Some(k);
        }
        k = k + 1;
    }
    None
}

fn check_completions(calls: &Vec<ProviderToolCall>, completions: &Vec<u64>) -> (b: bool)
    ensures
        b == completions_ok(calls@, completions@),
{
    let mut i: usize = 0;
    while i < completions.len()
        invariant
            i <= completions@.len(),
            forall|q: int| 0 <= q < i ==> has_index(calls@, #[trigger] completions@[q]),
            forall|p: int, q: int| 0 <= p < q < i ==> (#[trigger] completions@[p]) != (#[trigger] completions@[q]),
        decreases completions@.len() - i,
    {
        if find_index(calls, completions[i]).is_none() {
            return false;
        }
        let mut j: usize = 0;
        while j < i
            invariant
                i < completions@.len(),
                j <= i,
                forall|q: int| 0 <= q < j ==> (#[trigger] completions@[q]) != completions@[i as int],
            decreases i - j,
        {
            if completions[j] == completions[i] {
                return false;
            }
            j = j + 1;
        }
        i = i + 1;
    }
    true
}

/// Checks the tool calls that a streamed response announced against the argument buffers
/// and the completion marks that the stream delivered, and gives each call its arguments.
pub fn validate_tool_calls(
    tool_calls: Vec<ProviderToolCall>,
    argument_buffers: Vec<(u64, ArgumentBuffer)>,
    completions: Vec<u64>,
    stream_invalid: bool,
) -> (r: Result<Vec<ProviderToolCall>, ToolResponseError>)
    ensures
        r is Ok <==> response_problem(tool_calls@, argument_buffers@, completions@, stream_invalid) is None,
        r matches Err(e) ==> response_problem(tool_calls@, argument_buffers@, completions@, stream_invalid)
            == Some(e),
        r matches Ok(out) ==> out@.len() == tool_calls@.len() && forall|i: int|
            0 <= i < out@.len() ==> {
                &&& (#[trigger] out@[i]).id@ == tool_calls@[i].id@
                &&& out@[i].name@ == tool_calls@[i].name@
                &&& out@[i].index == tool_calls@[i].index
                &&& exists|j: int|
                    0 <= j < argument_buffers@.len() && (#[trigger] argument_buffers@[j]).0
                        == tool_calls@[i].index && out@[i].args@ == buffer_value(
                        argument_buffers@[j].1,
                    )
            },
{
    if stream_invalid {
        return Err(ToolResponseError::InvalidLifecycle);
    }
    if tool_calls.len() == 0 {
        return Err(ToolResponseError::MissingCalls);
    }
    match check_calls(&tool_calls) {
        Some(e) => {
            return Err(e);
        },
        None => {},
    }
    if argument_buffers.len() != tool_calls.len() {
        return Err(ToolResponseError::InvalidBufferMapping);
    }
    if completions.len() != tool_calls.len() {
        return Err(ToolResponseError::InvalidCompletionMapping);
    }
    if !check_completions(&tool_calls, &completions) {
        return Err(ToolResponseError::InvalidCompletionMapping);
    }
    proof {
        lemma_distinct_indices(tool_calls@);
    }
    let ghost comps = completions@;
    assert(calls_problem(tool_calls@) is None);
    assert(completions_ok(tool_calls@, comps));
    let n: usize = tool_calls.len();
    let ghost calls = tool_calls@;
    let ghost bufs = argument_buffers@;
    let mut assigned: Vec<Option<JsonValue>> = Vec::new();
    let mut k: usize = 0;
    while k < n
        invariant
            k <= n,
            assigned@.len() == k,
            forall|q: int| 0 <= q < k ==> (#[trigger] assigned@[q]) is None,
        decreases n - k,
    {
        assigned.push(None);
        k = k + 1;
    }
    let mut i: usize = 0;
    while i < argument_buffers.len()
        invariant
            i <= bufs.len(),
            n == calls.len(),
            n > 0,
            !stream_invalid,
            calls == tool_calls@,
            bufs == argument_buffers@,
            bufs.len() == n,
            comps.len() == n,
            comps == completions@,
            calls_problem(calls) is None,
            completions_ok(calls, comps),
            assigned@.len() == n,
            buffers_problem(bufs.subrange(0, i as int), calls) is None,
            forall|a: int, b: int| 0 <= a < b < calls.len() ==> (#[trigger] calls[a]).index != (#[trigger] calls[b]).index,
            forall|q: int|
                0 <= q < n ==> match #[trigger] assigned@[q] {
                    Some(v) => exists|j: int|
                        0 <= j < i && (#[trigger] bufs[j]).0 == calls[q].index && v@ == buffer_value(
                            bufs[j].1,
                        ),
                    None => forall|j: int| 0 <= j < i ==> (#[trigger] bufs[j]).0 != calls[q].index,
                },
        decreases bufs.len() - i,
    {
        let ghost sub = bufs.subrange(0, i + 1);
        proof {
            assert(sub.drop_last() =~= bufs.subrange(0, i as int));
            assert(sub[i as int] == bufs[i as int]);
        }
        let idx = argument_buffers[i].0;
        let mut j: usize = 0;
        while j < i
            invariant
                i < bufs.len(),
                j <= i,
                bufs == argument_buffers@,
                n == calls.len(),
                n > 0,
                !stream_invalid,
                calls == tool_calls@,
                bufs.len() == n,
                comps.len() == n,
                comps == completions@,
                calls_problem(calls) is None,
                completions_ok(calls, comps),
                sub == bufs.subrange(0, i + 1),
                sub.drop_last() == bufs.subrange(0, i as int),
                buffers_problem(bufs.subrange(0, i as int), calls) is None,
                idx == bufs[i as int].0,
                forall|q: int| 0 <= q < j ==> (#[trigger] bufs[q]).0 != idx,
            decreases i - j,
        {
            if argument_buffers[j].0 == idx {
                proof {
                    assert(sub[j as int].0 == sub[i as int].0);
                    assert(buffer_problem(sub, calls, i as int) == Some(ToolResponseError::InvalidBufferMapping));
                    assert(buffers_problem(sub, calls) == Some(ToolResponseError::InvalidBufferMapping));
                    lemma_buffers_prefix(bufs, calls, i + 1);
                }
                return Err(ToolResponseError::InvalidBufferMapping);
            }
            j = j + 1;
        }
        proof {
            assert forall|q: int| 0 <= q < i implies (#[trigger] sub[q]).0 != sub[i as int].0 by {
                assert(sub[q] == bufs[q]);
            }
        }
        let p = match find_index(&tool_calls, idx) {
            Some(p) => p,
            None => {
                proof {
                    assert(buffers_problem(sub, calls) == Some(ToolResponseError::InvalidBufferMapping));
                    lemma_buffers_prefix(bufs, calls, i + 1);
                }
                return Err(ToolResponseError::InvalidBufferMapping);
            },
        };
        let value = match &argument_buffers[i].1 {
            ArgumentBuffer::Empty => JsonValue::empty_object(),
            ArgumentBuffer::Parsed(v) => {
                if !v.is_object() {
                    proof {
                        assert(buffers_problem(sub, calls) == Some(ToolResponseError::InvalidArguments));
                        lemma_buffers_prefix(bufs, calls, i + 1);
                    }
                    return Err(ToolResponseError::InvalidArguments);
                }
                v.duplicate()
            },
            ArgumentBuffer::Malformed => {
                proof {
                    assert(buffers_problem(sub, calls) == Some(ToolResponseError::InvalidArguments));
                    lemma_buffers_prefix(bufs, calls, i + 1);
                }
                return Err(ToolResponseError::InvalidArguments);
            },
        };
        proof {
            assert(buffer_problem(sub, calls, i as int) is None);
            assert(buffers_problem(sub, calls) is None);
            assert(value@ == buffer_value(bufs[i as int].1));
        }
        let ghost before = assigned@;
        assigned.set(p, Some(value));
        proof {
            assert forall|q: int| 0 <= q < n implies match #[trigger] assigned@[q] {
                Some(v) => exists|j: int|
                    0 <= j < i + 1 && (#[trigger] bufs[j]).0 == calls[q].index && v@ == buffer_value(
                        bufs[j].1,
                    ),
                None => forall|j: int| 0 <= j < i + 1 ==> (#[trigger] bufs[j]).0 != calls[q].index,
            } by {
                if q == p {
                    assert(bufs[i as int].0 == calls[q].index);
                } else {
                    assert(assigned@[q] == before[q]);
                    assert(calls[q].index != calls[p as int].index);
                    match before[q] {
                        Some(v) => {
                            let j = choose|j: int|
                                0 <= j < i && (#[trigger] bufs[j]).0 == calls[q].index && v@
                                    == buffer_value(bufs[j].1);
                            assert(0 <= j < i + 1 && bufs[j].0 == calls[q].index);
                        },
                        None => {},
                    }
                }
            }
        }
        i = i + 1;
    }
    proof {
        assert(bufs.subrange(0, bufs.len() as int) =~= bufs);
    }
    let mut out: Vec<ProviderToolCall> = Vec::new();
    let mut q: usize = 0;
    while q < n
        invariant
            q <= n,
            n == calls.len(),
            n > 0,
            !stream_invalid,
            calls == tool_calls@,
            bufs == argument_buffers@,
            comps.len() == n,
            comps == completions@,
            calls_problem(calls) is None,
            completions_ok(calls, comps),
            buffers_problem(bufs, calls) is None,
            assigned@.len() == n,
            n == bufs.len(),
            forall|c: int|
                0 <= c < n ==> match #[trigger] assigned@[c] {
                    Some(v) => exists|j: int|
                        0 <= j < n && (#[trigger] bufs[j]).0 == calls[c].index && v@ == buffer_value(
                            bufs[j].1,
                        ),
                    None => forall|j: int| 0 <= j < n ==> (#[trigger] bufs[j]).0 != calls[c].index,
                },
            out@.len() == q,
            forall|c: int|
                0 <= c < q ==> {
                    &&& (#[trigger] out@[c]).id@ == calls[c].id@
                    &&& out@[c].name@ == calls[c].name@
                    &&& out@[c].index == calls[c].index
                    &&& exists|j: int|
                        0 <= j < n && (#[trigger] bufs[j]).0 == calls[c].index && out@[c].args@
                            == buffer_value(bufs[j].1)
                },
        decreases n - q,
    {
        match &assigned[q] {
            Some(v) => {
                let call = &tool_calls[q];
                out.push(
                    ProviderToolCall {
                        id: call.id.clone(),
                        name: call.name.clone(),
                        args: v.duplicate(),
                        index: call.index,
                    },
                );
            },
            None => {
                proof {
                    assert(!all_buffered(calls, bufs)) by {
                        if all_buffered(calls, bufs) {
                            assert(exists|j: int| 0 <= j < bufs.len() && (#[trigger] bufs[j]).0 == calls[q as int].index);
                        }
                    }
                }
                return Err(ToolResponseError::InvalidBufferMapping);
            },
        }
        q = q + 1;
    }
    proof {
        assert forall|c: int| 0 <= c < calls.len() implies exists|j: int|
            0 <= j < bufs.len() && (#[trigger] bufs[j]).0 == (#[trigger] calls[c]).index by {
            assert(out@[c].index == calls[c].index);
        }
        assert(all_buffered(calls, bufs));
    }
    Ok(out)
}

} // verus!
