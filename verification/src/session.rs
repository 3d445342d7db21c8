//! Sessions: the lock file that one process holds, the status of a session and the order
//! of a listing, and which log file a startup prune must leave alone.

use vstd::prelude::*;

use crate::events::same_text;
use crate::error::Error;
use crate::text::{
    chars_of, decimal, first_line, first_line_chars, is_first_newline, lemma_decimal_digits,
    parse_i32, parse_i32_chars, push_char, seq_lt, string_less, strip_cr, u64_to_decimal,
};

verus! {

/// Whether a session is still running, finished cleanly, or was interrupted.
#[derive(Debug, Clone, Copy, PartialEq, Eq, Structural)]
pub enum SessionStatus {
    Active,
    Done,
    Interrupted,
}

/// The name under which a status is shown.
pub open spec fn status_name(s: SessionStatus) -> Seq<char> {
    match s {
        SessionStatus::Active => "active"@,
        SessionStatus::Done => "done"@,
        SessionStatus::Interrupted => "interrupted"@,
    }
}

impl SessionStatus {
    /// The name under which this status is shown.
    pub fn as_str(&self) -> (r: &'static str)
        ensures
            r@ == status_name(*self),
    {
        match self {
            SessionStatus::Active => "active",
            SessionStatus::Done => "done",
            SessionStatus::Interrupted => "interrupted",
        }
    }
}

/// How the last finished turn of a conversation ended.
#[derive(Debug, Clone, Copy, PartialEq, Eq, Structural)]
pub enum TurnTerminal {
    Completed,
    Cancelled,
    Interrupted,
}

/// What the log says of the main conversation.
#[derive(Debug, Clone, Copy, PartialEq, Eq, Structural)]
pub struct MainConversation {
    pub has_active_turn: bool,
    pub last_terminal: Option<TurnTerminal>,
}

/// The status of a session: active while the process holding its lock is alive; else
/// interrupted while the main conversation has a turn in progress, done when its last
/// turn completed, interrupted when it was interrupted; otherwise done exactly when the
/// log's last fact ends a turn.
pub open spec fn status_of(
    lock_holder_alive: bool,
    main: Option<MainConversation>,
    last_event_is_turn_end: bool,
) -> SessionStatus {
    if lock_holder_alive {
        SessionStatus::Active
    } else {
        match main {
            Some(m) => if m.has_active_turn {
                SessionStatus::Interrupted
            } else if m.last_terminal == Some(TurnTerminal::Completed) {
                SessionStatus::Done
            } else if m.last_terminal == Some(TurnTerminal::Interrupted) {
                SessionStatus::Interrupted
            } else if last_event_is_turn_end {
                SessionStatus::Done
            } else {
                SessionStatus::Interrupted
            },
            None => if last_event_is_turn_end {
                SessionStatus::Done
            } else {
                SessionStatus::Interrupted
            },
        }
    }
}

/// The status of a session.
pub fn session_status(
    lock_holder_alive: bool,
    main: Option<MainConversation>,
    last_event_is_turn_end: bool,
) -> (s: SessionStatus)
    ensures
        s == status_of(lock_holder_alive, main, last_event_is_turn_end),
{
    if lock_holder_alive {
        return SessionStatus::Active;
    }
    match main {
        Some(m) if m.has_active_turn => SessionStatus::Interrupted,
        Some(m) if m.last_terminal == Some(TurnTerminal::Completed) => SessionStatus::Done,
        Some(m) if m.last_terminal == Some(TurnTerminal::Interrupted) => SessionStatus::Interrupted,
        _ => if last_event_is_turn_end {
            SessionStatus::Done
        } else {
            SessionStatus::Interrupted
        },
    }
}

/// Summary metadata of a session.
#[derive(Debug, Clone, PartialEq, Eq)]
pub struct SessionSummary {
    pub session_id: String,
    pub workspace: String,
    pub title: String,
    pub created_at: String,
    pub turn_count: u64,
    pub status: SessionStatus,
    pub mtime: String,
    pub size: u64,
}

/// `v` with `x` placed after every summary that is at least as recent.
pub open spec fn insert_by_mtime(v: Seq<SessionSummary>, x: SessionSummary) -> Seq<SessionSummary>
    decreases v.len(),
{
    if v.len() == 0 {
        seq![x]
    } else if seq_lt(v.last().mtime@, x.mtime@) {
        insert_by_mtime(v.drop_last(), x).push(v.last())
    } else {
        v.push(x)
    }
}

/// The summaries, most recent first; summaries of equal times keep their order.
pub open spec fn by_mtime(v: Seq<SessionSummary>) -> Seq<SessionSummary>
    decreases v.len(),
{
    if v.len() == 0 {
        Seq::empty()
    } else {
        insert_by_mtime(by_mtime(v.drop_last()), v.last())
    }
}

/// Whether summary `a` is not older than summary `b`.
pub open spec fn not_older(a: SessionSummary, b: SessionSummary) -> bool {
    !seq_lt(a.mtime@, b.mtime@)
}

/// Orders the summaries of a listing, most recent first (by the text of their
/// modification time); summaries of equal times keep their order.
pub fn list_sessions(summaries: Vec<SessionSummary>) -> (r: Vec<SessionSummary>)
    ensures
        r@ == by_mtime(summaries@),
{
    let mut sorted: Vec<SessionSummary> = Vec::new();
    let ghost all = summaries@;
    let mut rest = summaries;
    assert(all.subrange(0, 0) =~= Seq::<SessionSummary>::empty());
    while rest.len() > 0
        invariant
            rest@.len() <= all.len(),
            rest@ == all.subrange(all.len() - rest@.len(), all.len() as int),
            sorted@ == by_mtime(all.subrange(0, all.len() - rest@.len())),
        decreases rest@.len(),
    {
        let ghost done_len = all.len() - rest@.len();
        let x = rest.remove(0);
        proof {
            assert(all[done_len] == x);
            assert(all.subrange(0, done_len + 1).drop_last() =~= all.subrange(0, done_len));
            assert(rest@ =~= all.subrange(done_len + 1, all.len() as int));
        }
        let ghost s0 = sorted@;
        let mut p: usize = sorted.len();
        proof {
            assert(s0.subrange(0, p as int) =~= s0);
            assert(s0.subrange(p as int, s0.len() as int) =~= Seq::<SessionSummary>::empty());
            assert(insert_by_mtime(s0, x) + Seq::<SessionSummary>::empty() =~= insert_by_mtime(s0, x));
        }
        while p > 0 && string_less(&sorted[p - 1].mtime, &x.mtime)
            invariant
                p <= sorted@.len(),
                sorted@ == s0,
                insert_by_mtime(s0, x) == insert_by_mtime(s0.subrange(0, p as int), x) + s0.subrange(
                    p as int,
                    s0.len() as int,
                ),
            decreases p,
        {
            proof {
                let pre = s0.subrange(0, p as int);
                assert(pre.drop_last() =~= s0.subrange(0, p - 1));
                assert(pre.last() == s0[p - 1]);
                assert(insert_by_mtime(pre, x) == insert_by_mtime(s0.subrange(0, p - 1), x).push(s0[p - 1]));
                assert(s0.subrange(p - 1, s0.len() as int) =~= seq![s0[p - 1]] + s0.subrange(p as int, s0.len() as int));
                assert(insert_by_mtime(s0.subrange(0, p - 1), x).push(s0[p - 1]) + s0.subrange(p as int, s0.len() as int)
                    =~= insert_by_mtime(s0.subrange(0, p - 1), x) + s0.subrange(p - 1, s0.len() as int));
            }
            p = p - 1;
        }
        proof {
            let pre = s0.subrange(0, p as int);
            if p > 0 {
                assert(pre.last() == s0[p - 1]);
                assert(insert_by_mtime(pre, x) == pre.push(x));
            } else {
                assert(pre =~= Seq::<SessionSummary>::empty());
                assert(insert_by_mtime(pre, x) == seq![x]);
            }
        }
        sorted.insert(p, x);
        proof {
            assert(sorted@ =~= s0.subrange(0, p as int).push(x) + s0.subrange(p as int, s0.len() as int));
        }
    }
    proof {
        assert(all.subrange(0, all.len() as int) =~= all);
    }
    sorted
}

/// Ordering a listing puts more recent summaries first.
pub proof fn law_listing_is_most_recent_first(v: Seq<SessionSummary>)
    ensures
        forall|a: int, b: int|
            0 <= a < b < by_mtime(v).len() ==> not_older(#[trigger] by_mtime(v)[a], #[trigger] by_mtime(v)[b]),
        by_mtime(v).len() == v.len(),
    decreases v.len(),
{
    if v.len() > 0 {
        law_listing_is_most_recent_first(v.drop_last());
        lemma_insert_keeps_order(by_mtime(v.drop_last()), v.last());
    }
}

proof fn lemma_insert_keeps_order(s: Seq<SessionSummary>, x: SessionSummary)
    requires
        forall|a: int, b: int| 0 <= a < b < s.len() ==> not_older(#[trigger] s[a], #[trigger] s[b]),
    ensures
        insert_by_mtime(s, x).len() == s.len() + 1,
        forall|a: int, b: int|
            0 <= a < b < insert_by_mtime(s, x).len() ==> not_older(
                #[trigger] insert_by_mtime(s, x)[a],
                #[trigger] insert_by_mtime(s, x)[b],
            ),
        forall|a: int|
            0 <= a < insert_by_mtime(s, x).len() ==> (#[trigger] insert_by_mtime(s, x)[a] == x || s.contains(
                insert_by_mtime(s, x)[a],
            )),
    decreases s.len(),
{
    let r = insert_by_mtime(s, x);
    if s.len() == 0 {
    } else if seq_lt(s.last().mtime@, x.mtime@) {
        let p = s.drop_last();
        assert forall|a: int, b: int| 0 <= a < b < p.len() implies not_older(#[trigger] p[a], #[trigger] p[b]) by {
            assert(p[a] == s[a] && p[b] == s[b]);
        }
        lemma_insert_keeps_order(p, x);
        let q = insert_by_mtime(p, x);
        assert forall|a: int, b: int| 0 <= a < b < r.len() implies not_older(#[trigger] r[a], #[trigger] r[b]) by {
            if b < q.len() {
                assert(r[a] == q[a] && r[b] == q[b]);
            } else {
                assert(r[b] == s.last());
                assert(r[a] == q[a]);
                if q[a] == x {
                    crate::text::lemma_seq_lt_asymmetric(s.last().mtime@, x.mtime@);
                } else {
                    let k = choose|k: int| 0 <= k < p.len() && p[k] == q[a];
                    assert(s[k] == q[a]);
                    assert(not_older(s[k], s[s.len() - 1]));
                }
            }
        }
        assert forall|a: int| 0 <= a < r.len() implies (#[trigger] r[a] == x || s.contains(r[a])) by {
            if a < q.len() {
                assert(r[a] == q[a]);
                if q[a] != x {
                    let k = choose|k: int| 0 <= k < p.len() && p[k] == q[a];
                    assert(s[k] == q[a]);
                }
            } else {
                assert(r[a] == s[s.len() - 1]);
            }
        }
    } else {
        assert forall|a: int, b: int| 0 <= a < b < r.len() implies not_older(#[trigger] r[a], #[trigger] r[b]) by {
            if b < s.len() {
                assert(r[a] == s[a] && r[b] == s[b]);
            } else {
                assert(r[b] == x);
                assert(r[a] == s[a]);
                if a < s.len() - 1 {
                    assert(not_older(s[a], s[s.len() - 1]));
                    if seq_lt(s[a].mtime@, x.mtime@) {
                        crate::text::lemma_seq_lt_total(s[s.len() - 1].mtime@, x.mtime@);
                        if s[s.len() - 1].mtime@ == x.mtime@ {
                        } else {
                            crate::text::lemma_seq_lt_total(s[a].mtime@, s[s.len() - 1].mtime@);
                            if s[a].mtime@ != s[s.len() - 1].mtime@ {
                                crate::text::lemma_seq_lt_transitive(s[s.len() - 1].mtime@, s[a].mtime@, x.mtime@);
                            }
                        }
                    }
                }
            }
        }
        assert forall|a: int| 0 <= a < r.len() implies (#[trigger] r[a] == x || s.contains(r[a])) by {
            if a < s.len() {
                assert(r[a] == s[a]);
            }
        }
    }
}

/// Options of a log prune: the runtime log that is being written, which must be kept.
#[derive(Debug, Clone, PartialEq, Eq)]
pub struct PruneOptions {
    pub active_path: Option<String>,
}

impl Default for PruneOptions {
    fn default() -> (o: Self)
        ensures
            o.active_path is None,
    {
        PruneOptions { active_path: None }
    }
}

impl PruneOptions {
    /// The options with `path` as the log to keep.
    pub fn with_active_path(self, path: String) -> (o: Self)
        ensures
            o.active_path matches Some(p) && p@ == path@,
    {
        PruneOptions { active_path: Some(path) }
    }

    /// Whether the prune must leave `path` alone.
    pub fn excludes_active_path(&self, path: &str) -> (b: bool)
        ensures
            b == (self.active_path matches Some(p) && p@ == path@),
    {
        match &self.active_path {
            Some(p) => same_text(p.as_str(), path),
            None => false,
        }
    }
}

/// The prune options of a startup prune: keep the runtime log of this run.
pub fn startup_prune_options(active_path: &str) -> (o: PruneOptions)
    ensures
        o.active_path matches Some(p) && p@ == active_path@,
{
    PruneOptions::default().with_active_path(String::from_str(active_path))
}


/// The text of the lock file that process `pid` writes when it takes a session at
/// `started_at`: the process number on the first line, the time on the second.
pub open spec fn lock_text(pid: nat, started_at: Seq<char>) -> Seq<char> {
    decimal(pid) + seq!['\n'] + started_at + seq!['\n']
}

/// The text of the lock file that process `pid` writes at `started_at`.
pub fn lock_file_content(pid: u32, started_at: &str) -> (r: String)
    ensures
        r@ == lock_text(pid as nat, started_at@),
{
    let mut r = u64_to_decimal(pid as u64);
    push_char(&mut r, '\n');
    r.append(started_at);
    push_char(&mut r, '\n');
    r
}

/// The process that a lock file names as its holder: its first line read as an `i32`.
pub fn lock_holder_pid(content: &str) -> (r: Option<i32>)
    ensures
        r == parse_i32(first_line(content@)),
{
    let c = chars_of(content);
    let line = first_line_chars(&c);
    parse_i32_chars(&line)
}

/// What a process does on finding the lock file of `session` already there: the session
/// is locked by the holder while the holder is alive, and by an unknown holder (`0`) when
/// the file names none; `Ok` when the lock is stale, to be removed before trying again.
pub fn existing_lock_decision(session: String, holder: Option<i32>, holder_alive: bool) -> (r:
    Result<(), Error>)
    ensures
        match holder {
            None => r == Err::<(), Error>(Error::SessionLocked { session, holder_pid: 0 }),
            Some(pid) => if holder_alive {
                r == Err::<(), Error>(Error::SessionLocked { session, holder_pid: pid })
            } else {
                r is Ok
            },
        },
{
    match holder {
        None => Err(Error::SessionLocked { session, holder_pid: 0 }),
        Some(pid) => if holder_alive {
            Err(Error::SessionLocked { session, holder_pid: pid })
        } else {
            Ok(())
        },
    }
}

/// Whether `session` may be deleted, given what its lock file names: not while the named
/// holder is alive; a lock file that names no process does not keep it.
pub fn delete_lock_check(session: String, holder: Option<i32>, holder_alive: bool) -> (r: Result<
    (),
    Error,
>)
    ensures
        match holder {
            Some(pid) if holder_alive => r == Err::<(), Error>(
                Error::SessionLocked { session, holder_pid: pid },
            ),
            _ => r is Ok,
        },
{
    match holder {
        Some(pid) if holder_alive => Err(Error::SessionLocked { session, holder_pid: pid }),
        _ => Ok(()),
    }
}

/// A lock file names the process that wrote it, whatever time it records, for every
/// process number that fits in an `i32`.
pub proof fn law_lock_names_its_writer(pid: u32, started_at: Seq<char>)
    requires
        pid <= i32::MAX,
    ensures
        parse_i32(first_line(lock_text(pid as nat, started_at))) == Some(pid as i32),
{
    let d = decimal(pid as nat);
    let t = lock_text(pid as nat, started_at);
    lemma_decimal_digits(pid as nat);
    assert(t[d.len() as int] == '\n');
    assert forall|j: int| 0 <= j < d.len() implies t[j] != '\n' by {
        assert(t[j] == d[j]);
        assert(crate::text::is_digit(d[j]));
    }
    assert(is_first_newline(t, d.len() as int));
    let k = choose|k: int| is_first_newline(t, k);
    assert(k == d.len());
    assert(t.subrange(0, k) =~= d);
    assert(crate::text::is_digit(d.last()));
    assert(strip_cr(d) == d);
    assert(crate::text::is_digit(d[0]));
    assert(crate::text::signed_value(d) == Some(pid as int));
}

} // verus!
