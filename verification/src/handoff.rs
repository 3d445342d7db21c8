//! Streaming detection of a `<kuku_handoff>...</kuku_handoff>` block in model output.
//!
//! Text outside the block stays visible to the user; text inside it is the handoff
//! summary. Tags may be split across streamed chunks.

use vstd::prelude::*;

use crate::text::{
    chars_eq, chars_of, extend_chars, is_whitespace, is_whitespace_spec, starts_with_chars,
    string_from_chars,
};

verus! {

/// The tag that opens a handoff block.
pub open spec fn open_tag() -> Seq<char> {
    seq!['<', 'k', 'u', 'k', 'u', '_', 'h', 'a', 'n', 'd', 'o', 'f', 'f', '>']
}

/// The tag that closes a handoff block.
pub open spec fn close_tag() -> Seq<char> {
    seq!['<', '/', 'k', 'u', 'k', 'u', '_', 'h', 'a', 'n', 'd', 'o', 'f', 'f', '>']
}

fn open_tag_chars() -> (v: Vec<char>)
    ensures
        v@ == open_tag(),
{
    let v = vec!['<', 'k', 'u', 'k', 'u', '_', 'h', 'a', 'n', 'd', 'o', 'f', 'f', '>'];
    assert(v@ =~= open_tag());
    v
}

fn close_tag_chars() -> (v: Vec<char>)
    ensures
        v@ == close_tag(),
{
    let v = vec!['<', '/', 'k', 'u', 'k', 'u', '_', 'h', 'a', 'n', 'd', 'o', 'f', 'f', '>'];
    assert(v@ =~= close_tag());
    v
}

/// Whether `p` is a prefix of `s`.
pub open spec fn is_prefix(p: Seq<char>, s: Seq<char>) -> bool {
    p.len() <= s.len() && s.subrange(0, p.len() as int) == p
}

/// Phase of the detector.
#[derive(Clone, Copy, Debug, PartialEq, Eq, Structural)]
pub enum DetectorState {
    UserText,
    TagScan,
    HandoffBody,
    ClosingScan,
    Done,
}

/// The abstract state of a [`HandoffDetector`].
pub struct DetectorModel {
    pub state: DetectorState,
    pub user_text: Seq<char>,
    pub handoff_text: Seq<char>,
    pub tag_buffer: Seq<char>,
    pub pre_tag_text: Seq<char>,
}

/// Index at which the trailing run of whitespace of `s` begins.
pub open spec fn trailing_ws_start(s: Seq<char>) -> nat
    decreases s.len(),
{
    if s.len() == 0 {
        0
    } else if !is_whitespace_spec(s.last()) {
        s.len()
    } else {
        trailing_ws_start(s.drop_last())
    }
}

/// Everything from the trailing run on is whitespace, and the character before it is not.
proof fn lemma_trailing_ws_start_split(s: Seq<char>)
    ensures
        trailing_ws_start(s) <= s.len(),
        forall|i: int| trailing_ws_start(s) <= i < s.len() ==> is_whitespace_spec(#[trigger] s[i]),
        trailing_ws_start(s) > 0 ==> !is_whitespace_spec(s[trailing_ws_start(s) - 1]),
    decreases s.len(),
{
    if s.len() > 0 && is_whitespace_spec(s.last()) {
        let d = s.drop_last();
        lemma_trailing_ws_start_split(d);
        assert forall|i: int| trailing_ws_start(s) <= i < s.len() implies is_whitespace_spec(
            #[trigger] s[i],
        ) by {
            if i < d.len() {
                assert(s[i] == d[i]);
            }
        }
        if trailing_ws_start(s) > 0 {
            assert(s[trailing_ws_start(s) - 1] == d[trailing_ws_start(d) - 1]);
        }
    }
}

proof fn lemma_trailing_ws_start_bound(s: Seq<char>)
    ensures
        trailing_ws_start(s) <= s.len(),
    decreases s.len(),
{
    if s.len() > 0 && is_whitespace_spec(s.last()) {
        lemma_trailing_ws_start_bound(s.drop_last());
    }
}

/// The detector after reading one character.
pub open spec fn step(m: DetectorModel, ch: char) -> DetectorModel {
    match m.state {
        DetectorState::UserText => {
            if ch == '<' {
                let k = trailing_ws_start(m.user_text) as int;
                DetectorModel {
                    state: DetectorState::TagScan,
                    user_text: m.user_text.subrange(0, k),
                    pre_tag_text: m.user_text.subrange(k, m.user_text.len() as int),
                    tag_buffer: seq![ch],
                    ..m
                }
            } else {
                DetectorModel { user_text: m.user_text.push(ch), ..m }
            }
        },
        DetectorState::TagScan => {
            let buffer = m.tag_buffer.push(ch);
            if buffer == open_tag() {
                DetectorModel { state: DetectorState::HandoffBody, tag_buffer: seq![], ..m }
            } else if !is_prefix(buffer, open_tag()) {
                DetectorModel {
                    state: DetectorState::UserText,
                    user_text: m.user_text + m.pre_tag_text + buffer,
                    pre_tag_text: seq![],
                    tag_buffer: seq![],
                    ..m
                }
            } else {
                DetectorModel { tag_buffer: buffer, ..m }
            }
        },
        DetectorState::HandoffBody => {
            if ch == '<' {
                DetectorModel { state: DetectorState::ClosingScan, tag_buffer: seq![ch], ..m }
            } else {
                DetectorModel { handoff_text: m.handoff_text.push(ch), ..m }
            }
        },
        DetectorState::ClosingScan => {
            let buffer = m.tag_buffer.push(ch);
            if buffer == close_tag() {
                DetectorModel { state: DetectorState::Done, tag_buffer: seq![], ..m }
            } else if !is_prefix(buffer, close_tag()) {
                DetectorModel {
                    state: DetectorState::HandoffBody,
                    handoff_text: m.handoff_text + buffer,
                    tag_buffer: seq![],
                    ..m
                }
            } else {
                DetectorModel { tag_buffer: buffer, ..m }
            }
        },
        DetectorState::Done => m,
    }
}

/// The detector after reading every character of `chunk` in order.
pub open spec fn feed(m: DetectorModel, chunk: Seq<char>) -> DetectorModel
    decreases chunk.len(),
{
    if chunk.len() == 0 {
        m
    } else {
        step(feed(m, chunk.drop_last()), chunk.last())
    }
}

/// The text a finished detector reports as the handoff summary.
pub open spec fn finish_result(m: DetectorModel) -> Option<Seq<char>> {
    match m.state {
        DetectorState::Done => Some(m.handoff_text),
        DetectorState::HandoffBody | DetectorState::ClosingScan => {
            if m.handoff_text.len() > 0 {
                Some(m.handoff_text)
            } else {
                None
            }
        },
        _ => None,
    }
}

/// The detector a fresh stream starts from.
pub open spec fn initial_model() -> DetectorModel {
    DetectorModel {
        state: DetectorState::UserText,
        user_text: seq![],
        handoff_text: seq![],
        tag_buffer: seq![],
        pre_tag_text: seq![],
    }
}

/// Splits streamed model text into the part shown to the user and a handoff summary.
pub struct HandoffDetector {
    state: DetectorState,
    user_text: Vec<char>,
    handoff_text: Vec<char>,
    tag_buffer: Vec<char>,
    pre_tag_text: Vec<char>,
}

impl View for HandoffDetector {
    type V = DetectorModel;

    closed spec fn view(&self) -> DetectorModel {
        DetectorModel {
            state: self.state,
            user_text: self.user_text@,
            handoff_text: self.handoff_text@,
            tag_buffer: self.tag_buffer@,
            pre_tag_text: self.pre_tag_text@,
        }
    }
}

/// Splits off the trailing whitespace of `text`, leaving the rest in place: the rest and
/// the tail make up the text, the tail is all whitespace, and the rest does not end in
/// whitespace.
fn split_trailing_whitespace(text: &mut Vec<char>) -> (tail: Vec<char>)
    ensures
        old(text)@ == final(text)@ + tail@,
        forall|i: int| 0 <= i < tail@.len() ==> is_whitespace_spec(#[trigger] tail@[i]),
        final(text)@.len() > 0 ==> !is_whitespace_spec(final(text)@.last()),
        trailing_ws_start(old(text)@) <= old(text)@.len(),
        final(text)@ == old(text)@.subrange(0, trailing_ws_start(old(text)@) as int),
        tail@ == old(text)@.subrange(
            trailing_ws_start(old(text)@) as int,
            old(text)@.len() as int,
        ),
{
    let ghost original = text@;
    proof {
        lemma_trailing_ws_start_split(original);
    }
    let mut k: usize = text.len();
    assert(original.subrange(0, k as int) =~= original);
    while k > 0 && is_whitespace(text[k - 1])
        invariant
            text@ == original,
            k <= original.len(),
            trailing_ws_start(original) == trailing_ws_start(original.subrange(0, k as int)),
        decreases k,
    {
        assert(original.subrange(0, k as int).drop_last() =~= original.subrange(
            0,
            k - 1 as int,
        ));
        k = k - 1;
    }
    assert(trailing_ws_start(original.subrange(0, k as int)) == k) by {
        if k > 0 {
            assert(original.subrange(0, k as int).last() == original[k - 1]);
        }
    }
    let mut tail: Vec<char> = Vec::new();
    let mut i: usize = k;
    while i < text.len()
        invariant
            text@ == original,
            k <= i <= original.len(),
            tail@ == original.subrange(k as int, i as int),
        decreases original.len() - i,
    {
        tail.push(text[i]);
        i = i + 1;
    }
    text.truncate(k);
    proof {
        assert(original =~= text@ + tail@);
        assert forall|i: int| 0 <= i < tail@.len() implies is_whitespace_spec(#[trigger] tail@[i]) by {
            assert(tail@[i] == original[k + i]);
        }
        if text@.len() > 0 {
            assert(text@.last() == original[k - 1]);
        }
    }
    tail
}

impl HandoffDetector {
    /// A detector at the start of a stream.
    pub fn new() -> (d: Self)
        ensures
            d@ == initial_model(),
    {
        let d = HandoffDetector {
            state: DetectorState::UserText,
            user_text: Vec::new(),
            handoff_text: Vec::new(),
            tag_buffer: Vec::new(),
            pre_tag_text: Vec::new(),
        };
        assert(d@.user_text =~= seq![]);
        d
    }

    fn step_char(&mut self, ch: char, open: &Vec<char>, close: &Vec<char>)
        requires
            open@ == open_tag(),
            close@ == close_tag(),
        ensures
            final(self)@ == step(old(self)@, ch),
    {
        match self.state {
            DetectorState::UserText => {
                if ch == '<' {
                    let tail = split_trailing_whitespace(&mut self.user_text);
                    self.pre_tag_text = tail;
                    self.tag_buffer.clear();
                    self.tag_buffer.push(ch);
                    self.state = DetectorState::TagScan;
                    assert(self.tag_buffer@ =~= seq![ch]);
                } else {
                    self.user_text.push(ch);
                }
            },
            DetectorState::TagScan => {
                self.tag_buffer.push(ch);
                if chars_eq(&self.tag_buffer, open) {
                    self.state = DetectorState::HandoffBody;
                    self.tag_buffer.clear();
                    assert(self.tag_buffer@ =~= seq![]);
                } else if !starts_with_chars(open, &self.tag_buffer) {
                    let buffered = self.tag_buffer.clone();
                    self.tag_buffer.clear();
                    self.state = DetectorState::UserText;
                    let pre = self.pre_tag_text.clone();
                    extend_chars(&mut self.user_text, &pre);
                    self.pre_tag_text.clear();
                    extend_chars(&mut self.user_text, &buffered);
                    assert(self.tag_buffer@ =~= seq![]);
                    assert(self.pre_tag_text@ =~= seq![]);
                }
            },
            DetectorState::HandoffBody => {
                if ch == '<' {
                    self.tag_buffer.clear();
                    self.tag_buffer.push(ch);
                    self.state = DetectorState::ClosingScan;
                    assert(self.tag_buffer@ =~= seq![ch]);
                } else {
                    self.handoff_text.push(ch);
                }
            },
            DetectorState::ClosingScan => {
                self.tag_buffer.push(ch);
                if chars_eq(&self.tag_buffer, close) {
                    self.state = DetectorState::Done;
                    self.tag_buffer.clear();
                    assert(self.tag_buffer@ =~= seq![]);
                } else if !starts_with_chars(close, &self.tag_buffer) {
                    let buffered = self.tag_buffer.clone();
                    self.tag_buffer.clear();
                    self.state = DetectorState::HandoffBody;
                    extend_chars(&mut self.handoff_text, &buffered);
                    assert(self.tag_buffer@ =~= seq![]);
                }
            },
            DetectorState::Done => {},
        }
    }

    /// Reads one streamed chunk and returns the newly visible text, if any.
    ///
    /// The detector moves to `feed(old, chunk)`; the visible text accumulated so far is
    /// handed out and cleared.
    pub fn process(&mut self, chunk: &str) -> (visible: Option<String>)
        ensures
            final(self)@ == (DetectorModel { user_text: seq![], ..feed(old(self)@, chunk@) }),
            visible is None <==> feed(old(self)@, chunk@).user_text.len() == 0,
            visible matches Some(v) ==> v@ == feed(old(self)@, chunk@).user_text,
    {
        let chars = chars_of(chunk);
        let open = open_tag_chars();
        let close = close_tag_chars();
        let ghost start = self@;
        let mut i: usize = 0;
        while i < chars.len()
            invariant
                open@ == open_tag(),
                close@ == close_tag(),
                chars@ == chunk@,
                i <= chars@.len(),
                self@ == feed(start, chars@.subrange(0, i as int)),
            decreases chars@.len() - i,
        {
            let ghost before = chars@.subrange(0, i as int);
            self.step_char(chars[i], &open, &close);
            assert(chars@.subrange(0, i + 1 as int).drop_last() =~= before);
            i = i + 1;
        }
        assert(chars@.subrange(0, chars@.len() as int) =~= chunk@);
        self.take_visible_text()
    }

    /// Whether a handoff block has been fully read.
    pub fn is_done(&self) -> (b: bool)
        ensures
            b == (self@.state == DetectorState::Done),
    {
        match self.state {
            DetectorState::Done => true,
            _ => false,
        }
    }

    /// Ends the stream and returns the handoff summary, if one was started.
    pub fn finish(self) -> (summary: Option<String>)
        ensures
            summary is None <==> finish_result(self@) is None,
            summary matches Some(s) ==> finish_result(self@) == Some(s@),
    {
        match self.state {
            DetectorState::Done => Some(string_from_chars(&self.handoff_text)),
            DetectorState::HandoffBody | DetectorState::ClosingScan => {
                if self.handoff_text.len() > 0 {
                    Some(string_from_chars(&self.handoff_text))
                } else {
                    None
                }
            },
            _ => None,
        }
    }

    fn take_visible_text(&mut self) -> (text: Option<String>)
        ensures
            final(self)@ == (DetectorModel { user_text: seq![], ..old(self)@ }),
            text is None <==> old(self)@.user_text.len() == 0,
            text matches Some(t) ==> t@ == old(self)@.user_text,
    {
        let text = string_from_chars(&self.user_text);
        let empty = self.user_text.len() == 0;
        self.user_text.clear();
        assert(self.user_text@ =~= seq![]);
        if empty {
            None
        } else {
            Some(text)
        }
    }
}

/// The part of the detector that does not depend on the visible text.
pub open spec fn summary_part(m: DetectorModel) -> (DetectorState, Seq<char>, Seq<char>) {
    (m.state, m.handoff_text, m.tag_buffer)
}

proof fn lemma_step_summary_part(m1: DetectorModel, m2: DetectorModel, ch: char)
    requires
        summary_part(m1) == summary_part(m2),
    ensures
        summary_part(step(m1, ch)) == summary_part(step(m2, ch)),
{
}

proof fn lemma_feed_summary_part(m1: DetectorModel, m2: DetectorModel, chunk: Seq<char>)
    requires
        summary_part(m1) == summary_part(m2),
    ensures
        summary_part(feed(m1, chunk)) == summary_part(feed(m2, chunk)),
    decreases chunk.len(),
{
    if chunk.len() > 0 {
        lemma_feed_summary_part(m1, m2, chunk.drop_last());
        lemma_step_summary_part(feed(m1, chunk.drop_last()), feed(m2, chunk.drop_last()), chunk.last());
    }
}

/// Reading `a` and then `b` leaves the detector where reading `a + b` does.
pub proof fn law_feed_concat(m: DetectorModel, a: Seq<char>, b: Seq<char>)
    ensures
        feed(feed(m, a), b) == feed(m, a + b),
    decreases b.len(),
{
    if b.len() == 0 {
        assert(a + b =~= a);
    } else {
        law_feed_concat(m, a, b.drop_last());
        assert((a + b).drop_last() =~= a + b.drop_last());
        assert((a + b).last() == b.last());
    }
}

/// The handoff summary does not depend on how the stream is split into chunks:
/// handing out the visible text after the first chunk changes nothing of it.
pub proof fn law_summary_independent_of_chunking(m: DetectorModel, a: Seq<char>, b: Seq<char>)
    ensures
        finish_result(feed(DetectorModel { user_text: seq![], ..feed(m, a) }, b))
            == finish_result(feed(m, a + b)),
{
    law_feed_concat(m, a, b);
    lemma_feed_summary_part(DetectorModel { user_text: seq![], ..feed(m, a) }, feed(m, a), b);
}

/// Once the closing tag has been read, further input changes nothing and shows nothing.
pub proof fn law_done_is_final(m: DetectorModel, chunk: Seq<char>)
    requires
        m.state == DetectorState::Done,
    ensures
        feed(m, chunk) == m,
    decreases chunk.len(),
{
    if chunk.len() > 0 {
        law_done_is_final(m, chunk.drop_last());
    }
}

/// Outside a handoff block, text without `<` is shown unchanged.
pub proof fn law_plain_text_is_visible(m: DetectorModel, chunk: Seq<char>)
    requires
        m.state == DetectorState::UserText,
        forall|i: int| 0 <= i < chunk.len() ==> chunk[i] != '<',
    ensures
        feed(m, chunk) == (DetectorModel { user_text: m.user_text + chunk, ..m }),
    decreases chunk.len(),
{
    if chunk.len() == 0 {
        assert(m.user_text + chunk =~= m.user_text);
    } else {
        assert(chunk.last() == chunk[chunk.len() - 1]);
        assert(chunk.last() != '<');
        law_plain_text_is_visible(m, chunk.drop_last());
        assert((m.user_text + chunk.drop_last()).push(chunk.last()) =~= m.user_text + chunk);
    }
}


/// Whether every `<` of `body` is followed, inside `body`, by a character that is neither
/// `<` nor `/`: such a `<` cannot begin the closing tag, nor hide one that begins after it.
pub open spec fn lone_angles(body: Seq<char>) -> bool {
    forall|i: int|
        0 <= i < body.len() && #[trigger] body[i] == '<' ==> i + 1 < body.len() && body[i + 1] != '<'
            && body[i + 1] != '/'
}

/// The detector right after the opening tag of a stream that began with it.
pub open spec fn opened_model() -> DetectorModel {
    DetectorModel {
        state: DetectorState::HandoffBody,
        user_text: seq![],
        handoff_text: seq![],
        tag_buffer: seq![],
        pre_tag_text: seq![],
    }
}

proof fn lemma_feed_push(m: DetectorModel, s: Seq<char>, c: char)
    ensures
        feed(m, s.push(c)) == step(feed(m, s), c),
{
    assert(s.push(c).drop_last() =~= s);
}

proof fn lemma_open_prefix(j: int)
    requires
        1 <= j <= open_tag().len(),
    ensures
        j < open_tag().len() ==> feed(initial_model(), open_tag().subrange(0, j)) == (DetectorModel {
            state: DetectorState::TagScan,
            tag_buffer: open_tag().subrange(0, j),
            ..initial_model()
        }),
        j == open_tag().len() ==> feed(initial_model(), open_tag().subrange(0, j)) == opened_model(),
    decreases j,
{
    let o = open_tag();
    if j == 1 {
        assert(o.subrange(0, 1) =~= seq!['<']);
        assert(o.subrange(0, 1) =~= Seq::<char>::empty().push('<'));
        lemma_feed_push(initial_model(), Seq::<char>::empty(), '<');
        assert(feed(initial_model(), Seq::<char>::empty()) == initial_model());
        assert(trailing_ws_start(Seq::<char>::empty()) == 0);
        assert(Seq::<char>::empty().subrange(0, 0) =~= Seq::<char>::empty());
    } else {
        lemma_open_prefix(j - 1);
        assert(o.subrange(0, j) =~= o.subrange(0, j - 1).push(o[j - 1]));
        lemma_feed_push(initial_model(), o.subrange(0, j - 1), o[j - 1]);
        let buffer = o.subrange(0, j - 1).push(o[j - 1]);
        assert(buffer =~= o.subrange(0, j));
        if j < o.len() {
            assert(buffer != o) by {
                assert(buffer.len() != o.len());
            }
            assert(is_prefix(buffer, o));
        } else {
            assert(buffer =~= o);
        }
    }
}

proof fn lemma_close_prefix(m: DetectorModel, j: int)
    requires
        m.state == DetectorState::HandoffBody,
        1 <= j <= close_tag().len(),
    ensures
        j < close_tag().len() ==> feed(m, close_tag().subrange(0, j)) == (DetectorModel {
            state: DetectorState::ClosingScan,
            tag_buffer: close_tag().subrange(0, j),
            ..m
        }),
        j == close_tag().len() ==> feed(m, close_tag().subrange(0, j)) == (DetectorModel {
            state: DetectorState::Done,
            tag_buffer: seq![],
            ..m
        }),
    decreases j,
{
    let c = close_tag();
    if j == 1 {
        assert(c.subrange(0, 1) =~= Seq::<char>::empty().push('<'));
        lemma_feed_push(m, Seq::<char>::empty(), '<');
        assert(seq!['<'] =~= c.subrange(0, 1));
    } else {
        lemma_close_prefix(m, j - 1);
        assert(c.subrange(0, j) =~= c.subrange(0, j - 1).push(c[j - 1]));
        lemma_feed_push(m, c.subrange(0, j - 1), c[j - 1]);
        let buffer = c.subrange(0, j - 1).push(c[j - 1]);
        assert(buffer =~= c.subrange(0, j));
        if j < c.len() {
            assert(buffer != c) by {
                assert(buffer.len() != c.len());
            }
            assert(is_prefix(buffer, c));
        } else {
            assert(buffer =~= c);
        }
    }
}

proof fn lemma_body_prefix(body: Seq<char>, k: int)
    requires
        lone_angles(body),
        0 <= k <= body.len(),
    ensures
        k == 0 || body[k - 1] != '<' ==> feed(opened_model(), body.subrange(0, k)) == (DetectorModel {
            handoff_text: body.subrange(0, k),
            ..opened_model()
        }),
        k > 0 && body[k - 1] == '<' ==> feed(opened_model(), body.subrange(0, k)) == (DetectorModel {
            state: DetectorState::ClosingScan,
            handoff_text: body.subrange(0, k - 1),
            tag_buffer: seq!['<'],
            ..opened_model()
        }),
    decreases k,
{
    if k == 0 {
        assert(body.subrange(0, 0) =~= Seq::<char>::empty());
        assert(opened_model().handoff_text =~= body.subrange(0, 0));
    } else {
        lemma_body_prefix(body, k - 1);
        let ch = body[k - 1];
        assert(body.subrange(0, k) =~= body.subrange(0, k - 1).push(ch));
        lemma_feed_push(opened_model(), body.subrange(0, k - 1), ch);
        if k >= 2 && body[k - 2] == '<' {
            assert(ch != '<' && ch != '/');
            let buffer = seq!['<'].push(ch);
            assert(buffer != close_tag()) by {
                assert(buffer.len() != close_tag().len());
            }
            assert(!is_prefix(buffer, close_tag())) by {
                assert(close_tag().subrange(0, 2)[1] == '/');
                assert(buffer[1] == ch);
            }
            assert(body.subrange(0, k - 2) + buffer =~= body.subrange(0, k));
        } else {
            if ch != '<' {
                assert(body.subrange(0, k - 1).push(ch) =~= body.subrange(0, k));
            }
        }
    }
}

/// Inside a handoff block the summary is kept whole: when a stream opens with the opening
/// tag, then a body whose every `<` is followed by a character other than `<` and `/`,
/// then the closing tag, the summary is exactly that body.
pub proof fn law_handoff_body_is_kept_whole(body: Seq<char>)
    requires
        lone_angles(body),
    ensures
        finish_result(feed(initial_model(), open_tag() + body + close_tag())) == Some(body),
{
    lemma_open_prefix(open_tag().len() as int);
    assert(open_tag().subrange(0, open_tag().len() as int) =~= open_tag());
    lemma_body_prefix(body, body.len() as int);
    assert(body.subrange(0, body.len() as int) =~= body);
    if body.len() > 0 {
        assert(body[body.len() - 1] != '<') by {
            if body[body.len() - 1] == '<' {
                assert(body.len() - 1 + 1 >= body.len());
            }
        }
    }
    let after_body = feed(opened_model(), body);
    assert(after_body == (DetectorModel { handoff_text: body, ..opened_model() }));
    lemma_close_prefix(after_body, close_tag().len() as int);
    assert(close_tag().subrange(0, close_tag().len() as int) =~= close_tag());
    law_feed_concat(initial_model(), open_tag(), body);
    law_feed_concat(initial_model(), open_tag() + body, close_tag());
}

} // verus!
