//! Errors reported by the library.

use vstd::prelude::*;

use crate::recovery::ProviderFailureKind;

verus! {

/// Why an operation of the library was refused.
#[derive(Debug, Clone, PartialEq, Eq)]
pub enum Error {
    /// A session identifier that cannot name a session directory.
    InvalidSessionId(String),
    /// A workspace path that cannot be mapped into the kuku home.
    InvalidWorkspacePath(String),
    /// A `KUKU_HOME` value that cannot be used.
    InvalidKukuHome(String),
    /// Neither `KUKU_HOME` nor a platform home directory is available.
    MissingHomeDirectory,
    /// A recorded event stream that breaks the ledger's rules.
    InvalidEventStream(String),
    /// A task context that does not match its ledger.
    InvalidTaskContext(String),
    /// A session that still has a tool call without a result.
    InterruptedOpenTool(String),
    /// An argument combination that is not allowed.
    InvalidArgument(String),
    /// A permission request that is not the one awaiting a decision.
    PermissionRequestNotPending(String),
    /// A session whose lock is held by another process (`0` when the lock names none).
    SessionLocked { session: String, holder_pid: i32 },
    /// A provider request that failed, with the provider and model when known.
    Provider {
        kind: ProviderFailureKind,
        message: String,
        provider: Option<String>,
        model: Option<String>,
    },
}

} // verus!
