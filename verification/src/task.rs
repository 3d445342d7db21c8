//! The task ledger: which task and run a log belongs to, and which request of a turn
//! came last.

use vstd::prelude::*;

use crate::error::Error;
use crate::events::{
    same_text, EventPayload, ExecutionScope, LedgerRecordKind, RunRef, StoredEvent, TaskEvent,
};

verus! {

/// The task facts of the log, in order: those of every ledger record.
pub open spec fn ledger_facts(events: Seq<StoredEvent>) -> Seq<TaskEvent>
    decreases events.len(),
{
    if events.len() == 0 {
        Seq::empty()
    } else {
        ledger_facts(events.drop_last()) + match events.last().payload {
            EventPayload::TaskLedger { facts, .. } => facts@,
            _ => Seq::empty(),
        }
    }
}

/// The task facts of the activity records of the log, in order.
pub open spec fn activity_facts(events: Seq<StoredEvent>) -> Seq<TaskEvent>
    decreases events.len(),
{
    if events.len() == 0 {
        Seq::empty()
    } else {
        activity_facts(events.drop_last()) + match events.last().payload {
            EventPayload::TaskLedger { record: LedgerRecordKind::Activity, facts } => facts@,
            _ => Seq::empty(),
        }
    }
}

/// A run named by the ledger, as text.
pub open spec fn run_view(run: RunRef) -> (Seq<char>, Seq<char>) {
    (run.task_id@, run.run_id@)
}

/// What the ledger has established: the task's identity (task, workspace) from its last
/// creation fact, and the run that is active.
pub struct LedgerState {
    pub identity: Option<(Seq<char>, Seq<char>)>,
    pub active: Option<(Seq<char>, Seq<char>)>,
}

/// Whether a fact makes its run the active one.
pub open spec fn activates(f: TaskEvent) -> Option<RunRef> {
    match f {
        TaskEvent::RunQueued { run } => Some(run),
        TaskEvent::RunStarted { run } => Some(run),
        TaskEvent::RunNeedsAttention { run } => Some(run),
        TaskEvent::RunStopping { run } => Some(run),
        _ => None,
    }
}

/// Whether a fact ends its run.
pub open spec fn ends(f: TaskEvent) -> Option<RunRef> {
    match f {
        TaskEvent::RunCompleted { run } => Some(run),
        TaskEvent::RunStopped { run } => Some(run),
        TaskEvent::RunFailed { run } => Some(run),
        TaskEvent::RunInterrupted { run } => Some(run),
        _ => None,
    }
}

/// The effect of one fact: a creation sets the identity, a queued, started, attention or
/// stopping fact makes its run active, and an end of the active run clears it.
pub open spec fn ledger_step(st: LedgerState, f: TaskEvent) -> LedgerState {
    match f {
        TaskEvent::TaskCreated { task_id, workspace_id } => LedgerState {
            identity: Some((task_id@, workspace_id@)),
            active: st.active,
        },
        _ => match activates(f) {
            Some(run) => LedgerState { identity: st.identity, active: Some(run_view(run)) },
            None => match ends(f) {
                Some(run) => if st.active matches Some(a) && a.1 == run.run_id@ {
                    LedgerState { identity: st.identity, active: None }
                } else {
                    st
                },
                None => st,
            },
        },
    }
}

/// The state after the facts, in order.
pub open spec fn ledger_fold(facts: Seq<TaskEvent>) -> LedgerState
    decreases facts.len(),
{
    if facts.len() == 0 {
        LedgerState { identity: None, active: None }
    } else {
        ledger_step(ledger_fold(facts.drop_last()), facts.last())
    }
}

/// Why a log cannot serve an execution.
pub enum LedgerProblem {
    LegacySession,
    NoTask,
    IdentityMismatch,
    NoActiveRun,
    RunMismatch,
}

/// Whether the log holds a record of the older session format.
pub open spec fn has_legacy_session(events: Seq<StoredEvent>) -> bool {
    exists|i: int| 0 <= i < events.len() && (#[trigger] events[i]).payload is SessionCreated
}

/// The first problem of the log for the execution `scope`, if any.
pub open spec fn ledger_problem(events: Seq<StoredEvent>, scope: ExecutionScope) -> Option<LedgerProblem> {
    let st = ledger_fold(ledger_facts(events));
    if has_legacy_session(events) {
        Some(LedgerProblem::LegacySession)
    } else if st.identity is None {
        Some(LedgerProblem::NoTask)
    } else if st.identity->0 != (scope.task_id@, scope.workspace_id@) {
        Some(LedgerProblem::IdentityMismatch)
    } else if st.active is None {
        Some(LedgerProblem::NoActiveRun)
    } else if st.active->0 != (scope.task_id@, scope.run_id@) {
        Some(LedgerProblem::RunMismatch)
    } else {
        None
    }
}

/// Whether `e` is the error that reports problem `p`.
pub open spec fn reports(e: Error, p: LedgerProblem) -> bool {
    match p {
        LedgerProblem::LegacySession => e matches Error::InvalidEventStream(m) && m@
            == "task ledger must not contain legacy session records"@,
        LedgerProblem::NoTask => e matches Error::InvalidTaskContext(m) && m@
            == "task ledger has no TaskCreated fact"@,
        LedgerProblem::IdentityMismatch => e matches Error::InvalidTaskContext(m) && m@
            == "task ledger identity does not match execution scope"@,
        LedgerProblem::NoActiveRun => e matches Error::InvalidTaskContext(m) && m@
            == "task ledger has no active Run"@,
        LedgerProblem::RunMismatch => e matches Error::InvalidTaskContext(m) && m@
            == "active Run does not match execution scope"@,
    }
}

fn copy_run(run: &RunRef) -> (r: RunRef)
    ensures
        run_view(r) == run_view(*run),
{
    RunRef { task_id: run.task_id.clone(), run_id: run.run_id.clone() }
}

/// Applies one fact to the state held in `identity` and `active`.
fn apply_fact(
    identity: &mut Option<(String, String)>,
    active: &mut Option<RunRef>,
    fact: &TaskEvent,
)
    ensures
        ledger_step(
            LedgerState {
                identity: match *old(identity) {
                    Some(p) => Some((p.0@, p.1@)),
                    None => None,
                },
                active: match *old(active) {
                    Some(r) => Some(run_view(r)),
                    None => None,
                },
            },
            *fact,
        ) == (LedgerState {
            identity: match *final(identity) {
                Some(p) => Some((p.0@, p.1@)),
                None => None,
            },
            active: match *final(active) {
                Some(r) => Some(run_view(r)),
                None => None,
            },
        }),
{
    match fact {
        TaskEvent::TaskCreated { task_id, workspace_id } => {
            *identity = Some((task_id.clone(), workspace_id.clone()));
        },
        TaskEvent::RunQueued { run } | TaskEvent::RunStarted { run } | TaskEvent::RunNeedsAttention {
            run,
        } | TaskEvent::RunStopping { run } => {
            *active = Some(copy_run(run));
        },
        TaskEvent::RunCompleted { run } | TaskEvent::RunStopped { run } | TaskEvent::RunFailed {
            run,
        } | TaskEvent::RunInterrupted { run } => {
            let same = match &*active {
                Some(a) => same_text(a.run_id.as_str(), run.run_id.as_str()),
                None => false,
            };
            if same {
                *active = None;
            }
        },
        _ => {},
    }
}

/// The view of the state held in `identity` and `active`.
pub open spec fn state_of(identity: Option<(String, String)>, active: Option<RunRef>) -> LedgerState {
    LedgerState {
        identity: match identity {
            Some(p) => Some((p.0@, p.1@)),
            None => None,
        },
        active: match active {
            Some(r) => Some(run_view(r)),
            None => None,
        },
    }
}

/// Checks that the log is the task ledger of the execution `scope`: no record of the older
/// session format, a task created with the scope's task and workspace, and an active run
/// that is the scope's run.
pub fn validate_task_ledger(events: &[StoredEvent], scope: &ExecutionScope) -> (r: Result<(), Error>)
    ensures
        r is Ok <==> ledger_problem(events@, *scope) is None,
        r matches Err(e) ==> ledger_problem(events@, *scope) matches Some(p) && reports(e, p),
{
    let mut k: usize = 0;
    while k < events.len()
        invariant
            k <= events@.len(),
            forall|q: int| 0 <= q < k ==> !((#[trigger] events@[q]).payload is SessionCreated),
        decreases events@.len() - k,
    {
        if let EventPayload::SessionCreated { .. } = &events[k].payload {
            proof {
                assert(has_legacy_session(events@));
            }
            return Err(Error::InvalidEventStream(String::from_str("task ledger must not contain legacy session records")));
        }
        k = k + 1;
    }
    proof {
        reveal_strlit("task ledger must not contain legacy session records");
    }
    let mut identity: Option<(String, String)> = None;
    let mut active: Option<RunRef> = None;
    let mut i: usize = 0;
    while i < events.len()
        invariant
            i <= events@.len(),
            state_of(identity, active) == ledger_fold(ledger_facts(events@.subrange(0, i as int))),
        decreases events@.len() - i,
    {
        let ghost before = ledger_facts(events@.subrange(0, i as int));
        proof {
            assert(events@.subrange(0, i + 1).drop_last() =~= events@.subrange(0, i as int));
        }
        if let EventPayload::TaskLedger { facts, .. } = &events[i].payload {
            let mut j: usize = 0;
            while j < facts.len()
                invariant
                    j <= facts@.len(),
                    state_of(identity, active) == ledger_fold(before + facts@.subrange(0, j as int)),
                decreases facts@.len() - j,
            {
                proof {
                    assert((before + facts@.subrange(0, j + 1)).drop_last() =~= before
                        + facts@.subrange(0, j as int));
                    assert((before + facts@.subrange(0, j + 1)).last() == facts@[j as int]);
                }
                apply_fact(&mut identity, &mut active, &facts[j]);
                j = j + 1;
            }
            proof {
                assert(facts@.subrange(0, facts@.len() as int) =~= facts@);
            }
        } else {
            proof {
                assert(before + Seq::<TaskEvent>::empty() =~= before);
            }
        }
        i = i + 1;
    }
    proof {
        assert(events@.subrange(0, events@.len() as int) =~= events@);
        reveal_strlit("task ledger has no TaskCreated fact");
        reveal_strlit("task ledger identity does not match execution scope");
        reveal_strlit("task ledger has no active Run");
        reveal_strlit("active Run does not match execution scope");
    }
    let (task_id, workspace_id) = match identity {
        Some(p) => p,
        None => {
            return Err(Error::InvalidTaskContext(String::from_str("task ledger has no TaskCreated fact")));
        },
    };
    if !same_text(task_id.as_str(), scope.task_id.as_str()) || !same_text(
        workspace_id.as_str(),
        scope.workspace_id.as_str(),
    ) {
        return Err(Error::InvalidTaskContext(String::from_str("task ledger identity does not match execution scope")));
    }
    let run = match active {
        Some(r) => r,
        None => {
            return Err(Error::InvalidTaskContext(String::from_str("task ledger has no active Run")));
        },
    };
    if !same_text(run.task_id.as_str(), scope.task_id.as_str()) || !same_text(
        run.run_id.as_str(),
        scope.run_id.as_str(),
    ) {
        return Err(Error::InvalidTaskContext(String::from_str("active Run does not match execution scope")));
    }
    Ok(())
}

/// The request id of the last request started in turn `turn`, among the facts.
pub open spec fn last_started_in_turn(facts: Seq<TaskEvent>, turn: u64) -> Option<Seq<char>>
    decreases facts.len(),
{
    if facts.len() == 0 {
        None
    } else {
        match facts.last() {
            TaskEvent::RequestStarted { scope } => if scope.execution.turn_index == turn {
                Some(scope.request_id@)
            } else {
                last_started_in_turn(facts.drop_last(), turn)
            },
            _ => last_started_in_turn(facts.drop_last(), turn),
        }
    }
}

/// The id of the last request that the activity records show started in turn `turn`.
pub fn resumed_previous_request_id(events: &[StoredEvent], turn: u64) -> (r: Option<String>)
    ensures
        match r {
            Some(id) => last_started_in_turn(activity_facts(events@), turn) == Some(id@),
            None => last_started_in_turn(activity_facts(events@), turn) is None,
        },
{
    let ghost goal = last_started_in_turn(activity_facts(events@), turn);
    let mut i: usize = events.len();
    proof {
        assert(events@.subrange(0, i as int) =~= events@);
    }
    while i > 0
        invariant
            i <= events@.len(),
            goal == last_started_in_turn(activity_facts(events@), turn),
            goal == last_started_in_turn(activity_facts(events@.subrange(0, i as int)), turn),
        decreases i,
    {
        let ghost head = activity_facts(events@.subrange(0, i - 1));
        proof {
            assert(events@.subrange(0, i as int).drop_last() =~= events@.subrange(0, i - 1));
        }
        if let EventPayload::TaskLedger { record: LedgerRecordKind::Activity, facts } = &events[i - 1].payload {
            let mut j: usize = facts.len();
            proof {
                assert(facts@.subrange(0, j as int) =~= facts@);
            }
            while j > 0
                invariant
                    j <= facts@.len(),
                    goal == last_started_in_turn(activity_facts(events@), turn),
                    goal == last_started_in_turn(head + facts@.subrange(0, j as int), turn),
                decreases j,
            {
                proof {
                    assert((head + facts@.subrange(0, j as int)).drop_last() =~= head
                        + facts@.subrange(0, j - 1));
                    assert((head + facts@.subrange(0, j as int)).last() == facts@[j - 1]);
                }
                if let TaskEvent::RequestStarted { scope } = &facts[j - 1] {
                    if scope.execution.turn_index == turn {
                        proof {
                            let whole = head + facts@.subrange(0, j as int);
                            assert(whole.len() > 0);
                            assert(last_started_in_turn(whole, turn) == Some(scope.request_id@));
                        }
                        return Some(scope.request_id.clone());
                    }
                }
                j = j - 1;
            }
            proof {
                assert(head + facts@.subrange(0, 0) =~= head);
            }
        } else {
            proof {
                assert(head + Seq::<TaskEvent>::empty() =~= head);
            }
        }
        i = i - 1;
    }
    None
}

} // verus!
