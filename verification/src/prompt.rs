//! How the current turn's user message is framed for the provider: the runtime notices
//! and inbox blocks before the prompt, the handoff instruction, and finding the message
//! in the history again.

use vstd::prelude::*;

use crate::error::Error;
use crate::events::{same_text, EventPayload, StoredEvent};
use crate::skill::search::{contains_chars, contains_text};
use crate::text::{chars_of, join, join_strings, string_from_chars, texts};

verus! {

/// Who wrote a message.
#[derive(Debug, Clone, Copy, PartialEq, Eq, Structural)]
pub enum Role {
    System,
    User,
    Assistant,
}

/// One block of a message.
#[derive(Debug, PartialEq, Eq)]
pub enum MessageBlock {
    Text(String),
    Thinking(String),
    ToolUse { id: String, name: String },
    ToolResult { tool_call_id: String, content: String },
}

/// A message of the conversation, as the provider receives it.
#[derive(Debug, PartialEq, Eq)]
pub struct CanonicalMessage {
    pub role: Role,
    pub blocks: Vec<MessageBlock>,
}

/// The value of a block.
pub enum BlockView {
    Text(Seq<char>),
    Thinking(Seq<char>),
    ToolUse { id: Seq<char>, name: Seq<char> },
    ToolResult { tool_call_id: Seq<char>, content: Seq<char> },
}

impl View for MessageBlock {
    type V = BlockView;

    open spec fn view(&self) -> BlockView {
        match self {
            MessageBlock::Text(t) => BlockView::Text(t@),
            MessageBlock::Thinking(t) => BlockView::Thinking(t@),
            MessageBlock::ToolUse { id, name } => BlockView::ToolUse { id: id@, name: name@ },
            MessageBlock::ToolResult { tool_call_id, content } => BlockView::ToolResult {
                tool_call_id: tool_call_id@,
                content: content@,
            },
        }
    }
}

/// The value of a message.
pub struct MessageView {
    pub role: Role,
    pub blocks: Seq<BlockView>,
}

impl View for CanonicalMessage {
    type V = MessageView;

    open spec fn view(&self) -> MessageView {
        MessageView { role: self.role, blocks: self.blocks@.map_values(|b: MessageBlock| b@) }
    }
}

/// The values of some messages.
pub open spec fn message_views(v: Seq<CanonicalMessage>) -> Seq<MessageView> {
    v.map_values(|m: CanonicalMessage| m@)
}

impl MessageBlock {
    /// A copy of this block.
    pub fn duplicate(&self) -> (r: MessageBlock)
        ensures
            r@ == self@,
    {
        match self {
            MessageBlock::Text(t) => MessageBlock::Text(t.clone()),
            MessageBlock::Thinking(t) => MessageBlock::Thinking(t.clone()),
            MessageBlock::ToolUse { id, name } => MessageBlock::ToolUse { id: id.clone(), name: name.clone() },
            MessageBlock::ToolResult { tool_call_id, content } => MessageBlock::ToolResult {
                tool_call_id: tool_call_id.clone(),
                content: content.clone(),
            },
        }
    }

    /// Whether two blocks are equal.
    pub fn same_as(&self, other: &MessageBlock) -> (b: bool)
        ensures
            b == (self@ == other@),
    {
        match (self, other) {
            (MessageBlock::Text(a), MessageBlock::Text(b)) => same_text(a.as_str(), b.as_str()),
            (MessageBlock::Thinking(a), MessageBlock::Thinking(b)) => same_text(a.as_str(), b.as_str()),
            (MessageBlock::ToolUse { id: a, name: n }, MessageBlock::ToolUse { id: b, name: m }) => same_text(
                a.as_str(),
                b.as_str(),
            ) && same_text(n.as_str(), m.as_str()),
            (
                MessageBlock::ToolResult { tool_call_id: a, content: c },
                MessageBlock::ToolResult { tool_call_id: b, content: d },
            ) => same_text(a.as_str(), b.as_str()) && same_text(c.as_str(), d.as_str()),
            _ => false,
        }
    }
}

impl CanonicalMessage {
    /// A user message with the given blocks.
    pub fn user(blocks: Vec<MessageBlock>) -> (m: CanonicalMessage)
        ensures
            m.role == Role::User,
            m.blocks == blocks,
    {
        CanonicalMessage { role: Role::User, blocks }
    }

    /// A user message with one text block.
    pub fn user_text(text: &str) -> (m: CanonicalMessage)
        ensures
            m@ == (MessageView { role: Role::User, blocks: seq![BlockView::Text(text@)] }),
    {
        let m = CanonicalMessage { role: Role::User, blocks: vec![MessageBlock::Text(String::from_str(text))] };
        assert(m@.blocks =~= seq![BlockView::Text(text@)]);
        m
    }

    /// An assistant message with the given blocks.
    pub fn assistant(blocks: Vec<MessageBlock>) -> (m: CanonicalMessage)
        ensures
            m.role == Role::Assistant,
            m.blocks == blocks,
    {
        CanonicalMessage { role: Role::Assistant, blocks }
    }

    /// A copy of this message.
    pub fn duplicate(&self) -> (r: CanonicalMessage)
        ensures
            r@ == self@,
    {
        let mut blocks: Vec<MessageBlock> = Vec::new();
        let mut i: usize = 0;
        while i < self.blocks.len()
            invariant
                i <= self.blocks@.len(),
                blocks@.len() == i,
                forall|k: int| 0 <= k < i ==> (#[trigger] blocks@[k])@ == self.blocks@[k]@,
            decreases self.blocks@.len() - i,
        {
            blocks.push(self.blocks[i].duplicate());
            i = i + 1;
        }
        let r = CanonicalMessage { role: self.role, blocks };
        assert(r@.blocks =~= self@.blocks);
        r
    }

    /// Whether two messages are equal.
    pub fn same_as(&self, other: &CanonicalMessage) -> (b: bool)
        ensures
            b == (self@ == other@),
    {
        if self.role != other.role || self.blocks.len() != other.blocks.len() {
            proof {
                if self.blocks.len() != other.blocks.len() {
                    assert(self@.blocks.len() != other@.blocks.len());
                }
            }
            return false;
        }
        let mut i: usize = 0;
        while i < self.blocks.len()
            invariant
                i <= self.blocks@.len(),
                self.blocks@.len() == other.blocks@.len(),
                forall|k: int| 0 <= k < i ==> self.blocks@[k]@ == other.blocks@[k]@,
            decreases self.blocks@.len() - i,
        {
            if !self.blocks[i].same_as(&other.blocks[i]) {
                proof {
                    assert(self@.blocks[i as int] != other@.blocks[i as int]);
                }
                return false;
            }
            i = i + 1;
        }
        proof {
            assert(self@.blocks =~= other@.blocks);
        }
        true
    }
}

/// `s` with every occurrence of the non-empty `pat`, from the left, replaced by `to`
/// (`str::replace`).
pub open spec fn replace_all(s: Seq<char>, pat: Seq<char>, to: Seq<char>) -> Seq<char>
    decreases s.len(),
{
    if s.len() == 0 || pat.len() == 0 {
        s
    } else if pat.len() <= s.len() && s.subrange(0, pat.len() as int) == pat {
        to + replace_all(s.subrange(pat.len() as int, s.len() as int), pat, to)
    } else {
        seq![s[0]] + replace_all(s.drop_first(), pat, to)
    }
}

/// Replaces every occurrence of `pat` in `s` by `to`.
pub fn replace_text(s: &str, pat: &str, to: &str) -> (r: String)
    requires
        pat@.len() > 0,
    ensures
        r@ == replace_all(s@, pat@, to@),
{
    let c = chars_of(s);
    let p = chars_of(pat);
    let t = chars_of(to);
    let cl: usize = c.len();
    let mut out: Vec<char> = Vec::new();
    let mut i: usize = 0;
    assert(c@.subrange(0, c@.len() as int) =~= c@);
    while i < c.len()
        invariant
            i <= c@.len(),
            cl == c@.len(),
            c@ == s@,
            p@ == pat@,
            t@ == to@,
            p@.len() > 0,
            out@ + replace_all(c@.subrange(i as int, c@.len() as int), p@, t@) == replace_all(c@, p@, t@),
        decreases c@.len() - i,
    {
        let ghost rest = c@.subrange(i as int, c@.len() as int);
        let mut matches = p.len() <= c.len() - i;
        let mut k: usize = 0;
        while matches && k < p.len()
            invariant
                k <= p@.len(),
                i <= c@.len(),
                cl == c@.len(),
                rest == c@.subrange(i as int, c@.len() as int),
                matches ==> p@.len() <= rest.len(),
                matches ==> forall|q: int| 0 <= q < k ==> rest[q] == #[trigger] p@[q],
                !matches ==> !(p@.len() <= rest.len() && rest.subrange(0, p@.len() as int) == p@),
            decreases p@.len() - k,
        {
            if c[i + k] != p[k] {
                proof {
                    assert(rest[k as int] != p@[k as int]);
                    if p@.len() <= rest.len() && rest.subrange(0, p@.len() as int) == p@ {
                        assert(rest.subrange(0, p@.len() as int)[k as int] == p@[k as int]);
                    }
                }
                matches = false;
            }
            k = k + 1;
        }
        if matches {
            proof {
                assert(rest.subrange(0, p@.len() as int) =~= p@);
                assert(rest.subrange(p@.len() as int, rest.len() as int) =~= c@.subrange(
                    i + p@.len(),
                    c@.len() as int,
                ));
            }
            crate::text::extend_chars(&mut out, t.as_slice());
            i = i + p.len();
        } else {
            proof {
                assert(rest.drop_first() =~= c@.subrange(i + 1, c@.len() as int));
                assert(rest[0] == c@[i as int]);
            }
            out.push(c[i]);
            i = i + 1;
        }
    }
    proof {
        assert(c@.subrange(i as int, c@.len() as int) =~= Seq::<char>::empty());
        assert(out@ + Seq::<char>::empty() =~= out@);
    }
    string_from_chars(&out)
}

/// The block template that wraps runtime notices when the catalog has none.
pub open spec fn default_notices_template() -> Seq<char> {
    "<kuku_runtime_notices>{{runtime_notices_content}}</kuku_runtime_notices>"@
}

/// The block template that wraps the conversation inbox when the catalog has none.
pub open spec fn default_inbox_template() -> Seq<char> {
    "<kuku_conversation_inbox>{{conversation_inbox_content}}</kuku_conversation_inbox>"@
}

/// A template from the catalog, or the default.
pub open spec fn template_or(t: Option<Seq<char>>, default: Seq<char>) -> Seq<char> {
    match t {
        Some(x) => x,
        None => default,
    }
}

/// An optional text.
pub open spec fn opt_view(t: Option<&str>) -> Option<Seq<char>> {
    match t {
        Some(x) => Some(x@),
        None => None,
    }
}

/// The text before the prompt: the runtime notices and the inbox (each only when given
/// and not empty), in their templates, one per line.
pub open spec fn runtime_prefix(
    runtime_context: Option<Seq<char>>,
    skill_body: Option<Seq<char>>,
    notices_template: Option<Seq<char>>,
    inbox_template: Option<Seq<char>>,
) -> Option<Seq<char>> {
    let n = match runtime_context {
        Some(c) => if c.len() > 0 {
            Some(
                replace_all(
                    template_or(notices_template, default_notices_template()),
                    "{{runtime_notices_content}}"@,
                    c,
                ),
            )
        } else {
            None
        },
        None => None,
    };
    let b = match skill_body {
        Some(c) => if c.len() > 0 {
            Some(
                replace_all(
                    template_or(inbox_template, default_inbox_template()),
                    "{{conversation_inbox_content}}"@,
                    c,
                ),
            )
        } else {
            None
        },
        None => None,
    };
    match (n, b) {
        (Some(x), Some(y)) => Some(x + seq!['\n'] + y),
        (Some(x), None) => Some(x),
        (None, Some(y)) => Some(y),
        (None, None) => None,
    }
}

fn template_text(template: Option<&str>, default: &str) -> (r: String)
    ensures
        r@ == template_or(opt_view(template), default@),
{
    match template {
        Some(t) => String::from_str(t),
        None => String::from_str(default),
    }
}

/// The text before the prompt: the runtime notices and the inbox blocks. The templates
/// are the catalog's `runtime-notices` and `conversation-inbox` blocks, when it has them.
pub fn assembly_runtime_prefix(
    runtime_context: Option<&str>,
    skill_body: Option<&str>,
    notices_template: Option<&str>,
    inbox_template: Option<&str>,
) -> (r: Option<String>)
    ensures
        r matches Some(x) ==> runtime_prefix(
            opt_view(runtime_context),
            opt_view(skill_body),
            opt_view(notices_template),
            opt_view(inbox_template),
        ) == Some(x@),
        r is None ==> runtime_prefix(
            opt_view(runtime_context),
            opt_view(skill_body),
            opt_view(notices_template),
            opt_view(inbox_template),
        ) is None,
{
    proof {
        reveal_strlit("{{runtime_notices_content}}");
        reveal_strlit("{{conversation_inbox_content}}");
        reveal_strlit("\n");
        assert("\n"@ =~= seq!['\n']);
    }
    let notices: Option<String> = match runtime_context {
        Some(c) => if c.as_bytes().len() > 0 {
            let t = template_text(
                notices_template,
                "<kuku_runtime_notices>{{runtime_notices_content}}</kuku_runtime_notices>",
            );
            Some(replace_text(t.as_str(), "{{runtime_notices_content}}", c))
        } else {
            None
        },
        None => None,
    };
    let inbox: Option<String> = match skill_body {
        Some(c) => if c.as_bytes().len() > 0 {
            let t = template_text(
                inbox_template,
                "<kuku_conversation_inbox>{{conversation_inbox_content}}</kuku_conversation_inbox>",
            );
            Some(replace_text(t.as_str(), "{{conversation_inbox_content}}", c))
        } else {
            None
        },
        None => None,
    };
    proof {
        if runtime_context is Some {
            crate::text::lemma_blen_bounds(runtime_context->0@);
        }
        if skill_body is Some {
            crate::text::lemma_blen_bounds(skill_body->0@);
        }
    }
    match (notices, inbox) {
        (Some(x), Some(y)) => {
            let mut r = x;
            r.append("\n");
            r.append(y.as_str());
            Some(r)
        },
        (Some(x), None) => Some(x),
        (None, Some(y)) => Some(y),
        (None, None) => None,
    }
}

/// The start of the last occurrence of `pat` in `s`, if it occurs.
pub open spec fn last_index_of(s: Seq<char>, pat: Seq<char>) -> Option<int> {
    if exists|i: int|
        0 <= i && i + pat.len() <= s.len() && #[trigger] s.subrange(i, i + pat.len()) == pat {
        Some(
            choose|i: int|
                0 <= i && i + pat.len() <= s.len() && #[trigger] s.subrange(i, i + pat.len()) == pat
                    && forall|j: int|
                    i < j && j + pat.len() <= s.len() ==> #[trigger] s.subrange(j, j + pat.len()) != pat,
        )
    } else {
        None
    }
}

/// The start of the last occurrence of `pat` in `s`.
fn rfind(s: &[char], pat: &[char]) -> (r: Option<usize>)
    ensures
        r matches Some(i) ==> last_index_of(s@, pat@) == Some(i as int) && i + pat@.len() <= s@.len(),
        r is None ==> last_index_of(s@, pat@) is None,
{
    if pat.len() > s.len() {
        return None;
    }
    let sl: usize = s.len();
    let mut i: usize = sl - pat.len();
    loop
        invariant
            sl == s@.len(),
            pat@.len() <= s@.len(),
            i + pat@.len() <= s@.len(),
            forall|j: int| i < j && j + pat@.len() <= s@.len() ==> #[trigger] s@.subrange(j, j + pat@.len()) != pat@,
        decreases i,
    {
        let mut k: usize = 0;
        let mut same = true;
        while k < pat.len()
            invariant
                sl == s@.len(),
                i + pat@.len() <= s@.len(),
                k <= pat@.len(),
                same == forall|q: int| 0 <= q < k ==> s@[i + q] == #[trigger] pat@[q],
            decreases pat@.len() - k,
        {
            if s[i + k] != pat[k] {
                same = false;
            }
            k = k + 1;
        }
        if same {
            proof {
                assert(s@.subrange(i as int, i + pat@.len()) =~= pat@);
                let c = choose|c: int|
                    0 <= c && c + pat@.len() <= s@.len() && #[trigger] s@.subrange(c, c + pat@.len()) == pat@
                        && forall|j: int|
                        c < j && j + pat@.len() <= s@.len() ==> #[trigger] s@.subrange(j, j + pat@.len()) != pat@;
                if c < i {
                } else if c > i {
                }
            }
            return Some(i);
        }
        proof {
            let q = choose|q: int| 0 <= q < pat@.len() && s@[i + q] != pat@[q];
            assert(s@.subrange(i as int, i + pat@.len())[q] != pat@[q]);
        }
        if i == 0 {
            proof {
                assert forall|j: int| 0 <= j && j + pat@.len() <= s@.len() implies #[trigger] s@.subrange(
                    j,
                    j + pat@.len(),
                ) != pat@ by {
                    if j == 0 {
                    }
                }
            }
            return None;
        }
        i = i - 1;
    }
}

/// The handoff instruction inside the runtime notices: before the closing tag of the last
/// notices block when there is one, else on a line after the prefix; without a prefix, a
/// notices block holding the instruction and an empty inbox block.
pub open spec fn with_handoff(
    prefix: Option<Seq<char>>,
    instruction: Seq<char>,
    notices_template: Option<Seq<char>>,
    inbox_template: Option<Seq<char>>,
) -> Seq<char> {
    match prefix {
        None => replace_all(
            template_or(notices_template, default_notices_template()),
            "{{runtime_notices_content}}"@,
            instruction,
        ) + seq!['\n'] + replace_all(
            template_or(inbox_template, default_inbox_template()),
            "{{conversation_inbox_content}}"@,
            Seq::empty(),
        ),
        Some(p) => match last_index_of(p, "</kuku_runtime_notices>"@) {
            Some(i) => p.subrange(0, i) + seq!['\n', '\n'] + instruction + p.subrange(i, p.len() as int),
            None => p + seq!['\n'] + instruction,
        },
    }
}

/// Adds the handoff instruction to the text before the prompt.
#[verifier::rlimit(40)]
pub fn append_handoff_instruction(
    prefix: Option<String>,
    instruction: &str,
    notices_template: Option<&str>,
    inbox_template: Option<&str>,
) -> (r: Option<String>)
    ensures
        r matches Some(x) && x@ == with_handoff(
            match prefix {
                Some(p) => Some(p@),
                None => None,
            },
            instruction@,
            opt_view(notices_template),
            opt_view(inbox_template),
        ),
{
    proof {
        reveal_strlit("{{runtime_notices_content}}");
        reveal_strlit("{{conversation_inbox_content}}");
        reveal_strlit("\n");
        reveal_strlit("\n\n");
        reveal_strlit("");
        assert("\n"@ =~= seq!['\n']);
        assert("\n\n"@ =~= seq!['\n', '\n']);
    }
    match prefix {
        None => {
            let nt = template_text(
                notices_template,
                "<kuku_runtime_notices>{{runtime_notices_content}}</kuku_runtime_notices>",
            );
            let it = template_text(
                inbox_template,
                "<kuku_conversation_inbox>{{conversation_inbox_content}}</kuku_conversation_inbox>",
            );
            let mut r = replace_text(nt.as_str(), "{{runtime_notices_content}}", instruction);
            r.append("\n");
            let inbox = replace_text(it.as_str(), "{{conversation_inbox_content}}", "");
            proof {
                assert(""@ =~= Seq::<char>::empty());
            }
            r.append(inbox.as_str());
            Some(r)
        },
        Some(p) => {
            let pc = chars_of(p.as_str());
            let tag = chars_of("</kuku_runtime_notices>");
            match rfind(&pc, &tag) {
                Some(i) => {
                    let before = crate::text::take_chars(&pc, i);
                    let mut after: Vec<char> = Vec::new();
                    let mut j: usize = i;
                    while j < pc.len()
                        invariant
                            i <= j <= pc@.len(),
                            after@ == pc@.subrange(i as int, j as int),
                        decreases pc@.len() - j,
                    {
                        after.push(pc[j]);
                        j = j + 1;
                        assert(after@ =~= pc@.subrange(i as int, j as int));
                    }
                    let mut r = string_from_chars(&before);
                    r.append("\n\n");
                    r.append(instruction);
                    r.append(string_from_chars(&after).as_str());
                    proof {
                        assert(i <= pc@.len());
                    }
                    Some(r)
                },
                None => {
                    let mut r = p;
                    r.append("\n");
                    r.append(instruction);
                    Some(r)
                },
            }
        },
    }
}

/// The current user message: the prefix (when there is one) and the prompt, as text blocks.
pub fn build_current_user_message(prefix: Option<String>, prompt: &str) -> (m: CanonicalMessage)
    ensures
        m.role == Role::User,
        m@.blocks == match prefix {
            Some(p) => seq![BlockView::Text(p@), BlockView::Text(prompt@)],
            None => seq![BlockView::Text(prompt@)],
        },
{
    let mut blocks: Vec<MessageBlock> = Vec::new();
    let ghost pv = match &prefix {
        Some(p) => Some(p@),
        None => None,
    };
    match prefix {
        Some(p) => {
            blocks.push(MessageBlock::Text(p));
        },
        None => {},
    }
    blocks.push(MessageBlock::Text(String::from_str(prompt)));
    let m = CanonicalMessage::user(blocks);
    proof {
        assert(m@.blocks =~= match pv {
            Some(p) => seq![BlockView::Text(p), BlockView::Text(prompt@)],
            None => seq![BlockView::Text(prompt@)],
        });
    }
    m
}

/// Whether a message is a user message with exactly one text block, `text`.
pub open spec fn is_user_text(m: MessageView, text: Seq<char>) -> bool {
    m.role == Role::User && m.blocks.len() == 1 && m.blocks[0] == BlockView::Text(text)
}

/// The last message of `history` that is a user message holding exactly `text`.
pub open spec fn last_user_text(history: Seq<MessageView>, text: Seq<char>) -> Option<int>
    decreases history.len(),
{
    if history.len() == 0 {
        None
    } else if is_user_text(history.last(), text) {
        Some(history.len() - 1)
    } else {
        last_user_text(history.drop_last(), text)
    }
}

fn is_user_text_exec(m: &CanonicalMessage, text: &str) -> (b: bool)
    ensures
        b == is_user_text(m@, text@),
{
    if m.role != Role::User || m.blocks.len() != 1 {
        return false;
    }
    match &m.blocks[0] {
        MessageBlock::Text(t) => same_text(t.as_str(), text),
        _ => false,
    }
}

/// Replaces the last user message that holds exactly `prompt`; returns its position.
pub fn replace_latest_user_message(
    history: &mut Vec<CanonicalMessage>,
    prompt: &str,
    replacement: CanonicalMessage,
) -> (r: Option<usize>)
    ensures
        r matches Some(i) ==> last_user_text(message_views(old(history)@), prompt@) == Some(i as int)
            && message_views(final(history)@) == message_views(old(history)@).update(i as int, replacement@),
        r is None ==> last_user_text(message_views(old(history)@), prompt@) is None
            && final(history)@ == old(history)@,
{
    let ghost h0 = message_views(history@);
    let mut i: usize = history.len();
    assert(h0.subrange(0, i as int) =~= h0);
    while i > 0
        invariant
            i <= history@.len(),
            history@ == old(history)@,
            h0 == message_views(old(history)@),
            last_user_text(h0, prompt@) == last_user_text(h0.subrange(0, i as int), prompt@),
        decreases i,
    {
        let ghost pre = h0.subrange(0, i as int);
        proof {
            assert(pre.drop_last() =~= h0.subrange(0, i - 1));
            assert(pre.last() == history@[i - 1]@);
        }
        if is_user_text_exec(&history[i - 1], prompt) {
            history.set(i - 1, replacement);
            proof {
                assert(message_views(history@) =~= h0.update(i - 1, replacement@));
            }
            return Some(i - 1);
        }
        i = i - 1;
    }
    None
}

/// Replaces the current user message: the last one that holds exactly `current_body`
/// when that differs from the raw prompt and is found, else the last one that holds
/// exactly `raw_prompt`. Returns its position.
pub fn replace_current_user_message(
    history: &mut Vec<CanonicalMessage>,
    raw_prompt: &str,
    current_body: &str,
    replacement: CanonicalMessage,
) -> (r: Option<usize>)
    ensures
        ({
            let h = message_views(old(history)@);
            let target = if current_body@ != raw_prompt@ && last_user_text(h, current_body@) is Some {
                last_user_text(h, current_body@)
            } else {
                last_user_text(h, raw_prompt@)
            };
            &&& r matches Some(i) ==> target == Some(i as int) && message_views(final(history)@)
                == h.update(i as int, replacement@)
            &&& r is None ==> target is None && final(history)@ == old(history)@
        }),
{
    if !same_text(current_body, raw_prompt) {
        let copy = replacement.duplicate();
        match replace_latest_user_message(history, current_body, copy) {
            Some(i) => {
                return Some(i);
            },
            None => {},
        }
    }
    replace_latest_user_message(history, raw_prompt, replacement)
}

/// Whether some text block of some message contains `prefix`.
pub open spec fn mentions(messages: Seq<MessageView>, prefix: Seq<char>) -> bool {
    exists|i: int, j: int|
        0 <= i < messages.len() && 0 <= j < messages[i].blocks.len() && (
        #[trigger] messages[i].blocks[j] matches BlockView::Text(t) && contains_text(t, prefix))
}

/// Appends the current turn's prefix as a user message, unless a text block already holds it.
pub fn append_current_turn_prefix_once(messages: &mut Vec<CanonicalMessage>, prefix: &str)
    ensures
        mentions(message_views(old(messages)@), prefix@) ==> final(messages)@ == old(messages)@,
        !mentions(message_views(old(messages)@), prefix@) ==> message_views(final(messages)@)
            == message_views(old(messages)@).push(
            MessageView { role: Role::User, blocks: seq![BlockView::Text(prefix@)] },
        ),
{
    let p = chars_of(prefix);
    let ghost mv = message_views(messages@);
    let mut i: usize = 0;
    while i < messages.len()
        invariant
            i <= messages@.len(),
            messages@ == old(messages)@,
            mv == message_views(old(messages)@),
            p@ == prefix@,
            forall|a: int, j: int|
                0 <= a < i && 0 <= j < mv[a].blocks.len() ==> !(#[trigger] mv[a].blocks[j] matches BlockView::Text(t)
                    && contains_text(t, prefix@)),
        decreases messages@.len() - i,
    {
        let m = &messages[i];
        let mut j: usize = 0;
        while j < m.blocks.len()
            invariant
                i < messages@.len(),
                m == messages@[i as int],
                mv == message_views(old(messages)@),
                messages@ == old(messages)@,
                j <= m.blocks@.len(),
                p@ == prefix@,
                forall|q: int| 0 <= q < j ==> !(#[trigger] mv[i as int].blocks[q] matches BlockView::Text(t)
                    && contains_text(t, prefix@)),
            decreases m.blocks@.len() - j,
        {
            proof {
                assert(mv[i as int].blocks[j as int] == m.blocks@[j as int]@);
            }
            match &m.blocks[j] {
                MessageBlock::Text(t) => {
                    let tc = chars_of(t.as_str());
                    if contains_chars(&tc, &p) {
                        proof {
                            assert(mv[i as int].blocks[j as int] matches BlockView::Text(x) && contains_text(x, prefix@));
                        }
                        return;
                    }
                },
                _ => {},
            }
            j = j + 1;
        }
        i = i + 1;
    }
    let ghost before = messages@;
    messages.push(CanonicalMessage::user_text(prefix));
    proof {
        assert(message_views(messages@) =~= message_views(before).push(
            MessageView { role: Role::User, blocks: seq![BlockView::Text(prefix@)] },
        ));
    }
}

/// Inserts a text block just before the last block of the message (at the start when it
/// has none).
pub fn insert_current_turn_metadata_block(message: &mut CanonicalMessage, text: String)
    ensures
        final(message).role == old(message).role,
        final(message)@.blocks == old(message)@.blocks.insert(
            if old(message)@.blocks.len() > 0 {
                old(message)@.blocks.len() - 1
            } else {
                0
            },
            BlockView::Text(text@),
        ),
{
    let at: usize = if message.blocks.len() > 0 { message.blocks.len() - 1 } else { 0 };
    let ghost before = message.blocks@;
    let block = MessageBlock::Text(text);
    message.blocks.insert(at, block);
    proof {
        assert(message@.blocks =~= before.map_values(|b: MessageBlock| b@).insert(at as int, block@));
    }
}

/// The message of the error for a frozen request whose input is not its history message.
pub open spec fn divergent_input_message() -> Seq<char> {
    "frozen request current input does not match history"@
}

/// Checks that a frozen request is consistent: the history has the current user message at
/// `current_user_index`, the input has a last part, and the two are equal.
pub fn check_frozen_request(
    history: &[CanonicalMessage],
    current_user_index: usize,
    input_parts: &[CanonicalMessage],
) -> (r: Result<(), Error>)
    ensures
        r is Ok <==> (current_user_index < history@.len() && input_parts@.len() > 0
            && history@[current_user_index as int]@ == input_parts@.last()@),
        (current_user_index < history@.len() && input_parts@.len() > 0 && r is Err) ==> r->Err_0
            == Error::InvalidEventStream(r->Err_0->InvalidEventStream_0)
            && r->Err_0->InvalidEventStream_0@ == divergent_input_message(),
{
    if current_user_index >= history.len() {
        return Err(Error::InvalidEventStream(String::from_str("frozen request has no current history message")));
    }
    if input_parts.len() == 0 {
        return Err(Error::InvalidEventStream(String::from_str("frozen request has no current input message")));
    }
    if !history[current_user_index].same_as(&input_parts[input_parts.len() - 1]) {
        return Err(Error::InvalidEventStream(String::from_str("frozen request current input does not match history")));
    }
    Ok(())
}

/// The text of the current turn's frame: the turn's prefix (or empty notice and inbox
/// blocks), the input message and an empty attachment block.
pub open spec fn input_frame_text(prefix: Option<Seq<char>>, prompt: Seq<char>) -> Seq<char> {
    "<kuku_turn_frame>\n"@ + match prefix {
        Some(p) => p + seq!['\n'],
        None => "<runtime.notices></runtime.notices>\n<conversation.inbox></conversation.inbox>\n"@,
    } + "<input.message>"@ + prompt + "</input.message>\n<attachments></attachments>\n</kuku_turn_frame>"@
}

/// The current turn's input as one framed user message.
pub fn build_current_input_frame(prefix: Option<String>, prompt: &str) -> (m: CanonicalMessage)
    ensures
        m@ == (MessageView {
            role: Role::User,
            blocks: seq![
                BlockView::Text(
                    input_frame_text(
                        match prefix {
                            Some(p) => Some(p@),
                            None => None,
                        },
                        prompt@,
                    ),
                ),
            ],
        }),
{
    let ghost pv = match &prefix {
        Some(p) => Some(p@),
        None => None::<Seq<char>>,
    };
    let mut text = String::from_str("<kuku_turn_frame>\n");
    match prefix {
        Some(p) => {
            text.append(p.as_str());
            text.append("\n");
        },
        None => {
            text.append("<runtime.notices></runtime.notices>\n<conversation.inbox></conversation.inbox>\n");
        },
    }
    text.append("<input.message>");
    text.append(prompt);
    text.append("</input.message>\n<attachments></attachments>\n</kuku_turn_frame>");
    proof {
        reveal_strlit("<kuku_turn_frame>\n");
        reveal_strlit("\n");
        reveal_strlit("<runtime.notices></runtime.notices>\n<conversation.inbox></conversation.inbox>\n");
        reveal_strlit("<input.message>");
        reveal_strlit("</input.message>\n<attachments></attachments>\n</kuku_turn_frame>");
        assert(text@ =~= input_frame_text(pv, prompt@));
    }
    CanonicalMessage::user_text(text.as_str())
}

/// The system-notice block that wraps a notice when the catalog has none.
pub open spec fn default_system_notice_template() -> Seq<char> {
    "<kuku_system_notice>\n{{notice_body}}\n</kuku_system_notice>"@
}

/// The notice that tells the model which plugins are loaded.
pub open spec fn plugin_notice_text(names: Seq<Seq<char>>) -> Seq<char> {
    "Plugins loaded: "@ + join(names, ", "@) + ". If not relevant to your current task, ignore."@
}

/// The runtime blocks of a request: on the first turn, with plugins loaded, the plugin
/// notice in its system-notice block follows the other blocks (after a blank line).
pub open spec fn with_plugin_notice(
    runtime_blocks: Option<Seq<char>>,
    turn: u64,
    plugin_names: Seq<Seq<char>>,
    template: Option<Seq<char>>,
) -> Option<Seq<char>> {
    if turn == 1 && plugin_names.len() > 0 {
        let wrapped = replace_all(
            template_or(template, default_system_notice_template()),
            "{{notice_body}}"@,
            plugin_notice_text(plugin_names),
        );
        match runtime_blocks {
            Some(existing) => Some(existing + "\n\n"@ + wrapped),
            None => Some(wrapped),
        }
    } else {
        runtime_blocks
    }
}

/// Adds the plugin notice to the runtime blocks of the first turn.
pub fn add_plugin_notice(
    runtime_blocks: Option<String>,
    turn: u64,
    plugin_names: &[String],
    template: Option<&str>,
) -> (r: Option<String>)
    ensures
        match r {
            Some(x) => with_plugin_notice(
                match runtime_blocks {
                    Some(b) => Some(b@),
                    None => None,
                },
                turn,
                texts(plugin_names@),
                opt_view(template),
            ) == Some(x@),
            None => with_plugin_notice(
                match runtime_blocks {
                    Some(b) => Some(b@),
                    None => None,
                },
                turn,
                texts(plugin_names@),
                opt_view(template),
            ) is None,
        },
{
    if turn != 1 || plugin_names.len() == 0 {
        return runtime_blocks;
    }
    let mut notice = String::from_str("Plugins loaded: ");
    let names = join_strings(plugin_names, ", ");
    notice.append(names.as_str());
    notice.append(". If not relevant to your current task, ignore.");
    let tmpl = template_text(template, "<kuku_system_notice>\n{{notice_body}}\n</kuku_system_notice>");
    proof {
        reveal_strlit("{{notice_body}}");
    }
    let wrapped = replace_text(tmpl.as_str(), "{{notice_body}}", notice.as_str());
    proof {
        reveal_strlit("Plugins loaded: ");
        reveal_strlit(", ");
        reveal_strlit(". If not relevant to your current task, ignore.");
        reveal_strlit("<kuku_system_notice>\n{{notice_body}}\n</kuku_system_notice>");
        reveal_strlit("{{notice_body}}");
        reveal_strlit("\n\n");
        assert(notice@ =~= plugin_notice_text(texts(plugin_names@)));
    }
    match runtime_blocks {
        Some(existing) => {
            let mut r = existing;
            r.append("\n\n");
            r.append(wrapped.as_str());
            Some(r)
        },
        None => Some(wrapped),
    }
}

/// The position of the current user message after it is put into the history: where it
/// replaced its earlier copy, or at the end when it was appended.
pub fn place_current_user_message(
    history: &mut Vec<CanonicalMessage>,
    raw_prompt: &str,
    current_body: &str,
    current_input: CanonicalMessage,
) -> (i: usize)
    ensures
        ({
            let h = message_views(old(history)@);
            let target = if current_body@ != raw_prompt@ && last_user_text(h, current_body@) is Some {
                last_user_text(h, current_body@)
            } else {
                last_user_text(h, raw_prompt@)
            };
            &&& target matches Some(t) ==> i == t && message_views(final(history)@) == h.update(
                t,
                current_input@,
            )
            &&& target is None ==> i == h.len() && message_views(final(history)@) == h.push(
                current_input@,
            )
        }),
{
    let copy = current_input.duplicate();
    match replace_current_user_message(history, raw_prompt, current_body, current_input) {
        Some(i) => i,
        None => {
            let ghost before = history@;
            history.push(copy);
            proof {
                assert(message_views(history@) =~= message_views(before).push(copy@));
            }
            history.len() - 1
        },
    }
}

/// The hook-context block that wraps hook output when the catalog has none.
pub open spec fn default_hook_template() -> Seq<char> {
    "<kuku_hook_context>\n{{hook_text}}\n</kuku_hook_context>"@
}

/// The position of the last user message of the history, if any.
pub open spec fn last_user_index(history: Seq<MessageView>) -> Option<int>
    decreases history.len(),
{
    if history.len() == 0 {
        None
    } else if history.last().role == Role::User {
        Some(history.len() - 1)
    } else {
        last_user_index(history.drop_last())
    }
}

/// The block that carries hook output: the lines of output, one per line, in the template.
pub open spec fn hook_block_text(hook_context: Seq<Seq<char>>, template: Option<Seq<char>>) -> Seq<char> {
    replace_all(template_or(template, default_hook_template()), "{{hook_text}}"@, join(hook_context, seq!['\n']))
}

/// Puts the output of the pre-request hooks into the last user message of the history,
/// just before its last block. Nothing changes without output or without a user message.
pub fn insert_hook_context(history: &mut Vec<CanonicalMessage>, hook_context: &[String], template: Option<&str>)
    ensures
        ({
            let h = message_views(old(history)@);
            match last_user_index(h) {
                Some(k) => if hook_context@.len() > 0 {
                    final(history)@.len() == old(history)@.len() && forall|q: int|
                        0 <= q < h.len() ==> #[trigger] message_views(final(history)@)[q] == if q == k {
                            MessageView {
                                role: h[k].role,
                                blocks: h[k].blocks.insert(
                                    if h[k].blocks.len() > 0 {
                                        h[k].blocks.len() - 1
                                    } else {
                                        0
                                    },
                                    BlockView::Text(hook_block_text(texts(hook_context@), opt_view(template))),
                                ),
                            }
                        } else {
                            h[q]
                        }
                } else {
                    final(history)@ == old(history)@
                },
                None => final(history)@ == old(history)@,
            }
        }),
{
    if hook_context.len() == 0 {
        return;
    }
    let ghost h = message_views(history@);
    let mut i: usize = history.len();
    proof {
        assert(h.subrange(0, i as int) =~= h);
    }
    while i > 0
        invariant
            i <= history@.len(),
            hook_context@.len() > 0,
            history@ == old(history)@,
            h == message_views(old(history)@),
            last_user_index(h) == last_user_index(h.subrange(0, i as int)),
        decreases i,
    {
        let ghost pre = h.subrange(0, i as int);
        proof {
            assert(pre.drop_last() =~= h.subrange(0, i - 1));
            assert(pre.last() == history@[i - 1]@);
        }
        if history[i - 1].role == Role::User {
            let text = join_strings(hook_context, "\n");
            let tmpl = template_text(template, "<kuku_hook_context>\n{{hook_text}}\n</kuku_hook_context>");
            proof {
                reveal_strlit("\n");
                reveal_strlit("<kuku_hook_context>\n{{hook_text}}\n</kuku_hook_context>");
                reveal_strlit("{{hook_text}}");
                assert("\n"@ =~= seq!['\n']);
            }
            let block = replace_text(tmpl.as_str(), "{{hook_text}}", text.as_str());
            let k = i - 1;
            proof {
                assert(last_user_index(pre) == Some(k as int));
            }
            let mut message = history[k].duplicate();
            insert_current_turn_metadata_block(&mut message, block);
            history.set(k, message);
            proof {
                assert forall|q: int| 0 <= q < h.len() implies #[trigger] message_views(history@)[q] == if q == k {
                    MessageView {
                        role: h[k as int].role,
                        blocks: h[k as int].blocks.insert(
                            if h[k as int].blocks.len() > 0 {
                                h[k as int].blocks.len() - 1
                            } else {
                                0
                            },
                            BlockView::Text(hook_block_text(texts(hook_context@), opt_view(template))),
                        ),
                    }
                } else {
                    h[q]
                } by {
                    if q < k {
                        assert(history@[q] == old(history)@[q]);
                    } else if q > k {
                        assert(history@[q] == old(history)@[q]);
                    } else {
                        assert(history@[q]@.blocks =~= h[k as int].blocks.insert(
                            if h[k as int].blocks.len() > 0 {
                                h[k as int].blocks.len() - 1
                            } else {
                                0
                            },
                            BlockView::Text(hook_block_text(texts(hook_context@), opt_view(template))),
                        ));
                    }
                }
            }
            return;
        }
        i = i - 1;
    }
}

/// The prelude of a conversation's first request: the agent catalog and the Skill catalog
/// follow the prelude as user messages, each when it is given and not empty. Later
/// requests reuse the frozen prelude unchanged.
pub fn extend_first_prelude(
    prelude: &mut Vec<CanonicalMessage>,
    is_first_request: bool,
    catalog_text: Option<String>,
    skills_text: Option<String>,
)
    ensures
        message_views(final(prelude)@) == message_views(old(prelude)@) + if is_first_request {
            prelude_texts(
                match catalog_text {
                    Some(t) => Some(t@),
                    None => None,
                },
            ) + prelude_texts(
                match skills_text {
                    Some(t) => Some(t@),
                    None => None,
                },
            )
        } else {
            Seq::empty()
        },
{
    let ghost start = message_views(prelude@);
    if !is_first_request {
        proof {
            assert(start + Seq::<MessageView>::empty() =~= start);
        }
        return;
    }
    let ghost c = match &catalog_text {
        Some(t) => Some(t@),
        None => None::<Seq<char>>,
    };
    let ghost k = match &skills_text {
        Some(t) => Some(t@),
        None => None::<Seq<char>>,
    };
    push_nonempty(prelude, catalog_text);
    push_nonempty(prelude, skills_text);
    proof {
        assert(start + prelude_texts(c) + prelude_texts(k) =~= start + (prelude_texts(c)
            + prelude_texts(k)));
    }
}

/// The user message that a prelude text adds: one when the text is given and not empty.
pub open spec fn prelude_texts(t: Option<Seq<char>>) -> Seq<MessageView> {
    match t {
        Some(x) => if x.len() > 0 {
            seq![MessageView { role: Role::User, blocks: seq![BlockView::Text(x)] }]
        } else {
            Seq::empty()
        },
        None => Seq::empty(),
    }
}

fn push_nonempty(prelude: &mut Vec<CanonicalMessage>, text: Option<String>)
    ensures
        message_views(final(prelude)@) == message_views(old(prelude)@) + prelude_texts(
            match text {
                Some(t) => Some(t@),
                None => None,
            },
        ),
{
    let ghost before = prelude@;
    match text {
        Some(t) => {
            if t.as_str().unicode_len() > 0 {
                prelude.push(CanonicalMessage::user_text(t.as_str()));
                proof {
                    assert(message_views(prelude@) =~= message_views(before) + prelude_texts(
                        Some(t@),
                    ));
                }
            } else {
                proof {
                    assert(message_views(prelude@) =~= message_views(before) + Seq::<MessageView>::empty());
                }
            }
        },
        None => {
            proof {
                assert(message_views(prelude@) =~= message_views(before) + Seq::<MessageView>::empty());
            }
        },
    }
}


/// Whether `p` is a message that another agent handed to `conversation` through a tool
/// call; runtime notices do not count such messages.
pub open spec fn is_relayed_message(p: EventPayload, conversation: Seq<char>) -> bool {
    match p {
        EventPayload::MessageUser { conversation: c, from: Some(_), via_tool_call_id: Some(_), .. } => c@
            == conversation,
        _ => false,
    }
}

/// The positions, in order, of the first `n` facts of `events` that runtime notices read
/// for `conversation`: all but the messages relayed to it.
pub open spec fn notice_positions(events: Seq<StoredEvent>, conversation: Seq<char>, n: int) -> Seq<
    int,
>
    decreases n,
{
    if n <= 0 {
        Seq::empty()
    } else {
        let rest = notice_positions(events, conversation, n - 1);
        if is_relayed_message(events[n - 1].payload, conversation) {
            rest
        } else {
            rest.push(n - 1)
        }
    }
}

/// The positions of the facts of `events` that runtime notices read for `conversation`.
pub fn notice_event_positions(events: &[StoredEvent], conversation: &str) -> (r: Vec<usize>)
    ensures
        r@.map_values(|i: usize| i as int) == notice_positions(
            events@,
            conversation@,
            events@.len() as int,
        ),
{
    let mut out: Vec<usize> = Vec::new();
    let mut i: usize = 0;
    while i < events.len()
        invariant
            i <= events@.len(),
            out@.map_values(|k: usize| k as int) == notice_positions(
                events@,
                conversation@,
                i as int,
            ),
        decreases events@.len() - i,
    {
        let relayed = match &events[i].payload {
            EventPayload::MessageUser {
                conversation: c,
                from: Some(_),
                via_tool_call_id: Some(_),
                ..
            } => same_text(c.as_str(), conversation),
            _ => false,
        };
        if !relayed {
            out.push(i);
            proof {
                assert(out@.map_values(|k: usize| k as int) =~= notice_positions(
                    events@,
                    conversation@,
                    i as int,
                ).push(i as int));
            }
        }
        i = i + 1;
    }
    out
}

/// The runtime blocks of a request: the rendered notice bodies separated by a blank line,
/// or nothing when there is none.
pub fn join_notice_bodies(bodies: &[String]) -> (r: Option<String>)
    ensures
        bodies@.len() == 0 <==> r is None,
        r matches Some(t) ==> t@ == join(texts(bodies@), "\n\n"@),
{
    if bodies.len() == 0 {
        None
    } else {
        Some(join_strings(bodies, "\n\n"))
    }
}

} // verus!
