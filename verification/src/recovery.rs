//! Arithmetic of output-limit recovery: input token totals and the size of the
//! recovery suffix, and the names under which provider failures are recorded.

use vstd::prelude::*;

use crate::error::Error;
use crate::text::{decimal, u64_to_decimal};
use crate::types::ProviderUsage;

verus! {

/// Bytes reserved on top of the recovery notice for the framing around it.
pub const RECOVERY_SUFFIX_OVERHEAD_BYTES: usize = 128;

/// The most provider requests one turn may make.
pub const MAX_REQUEST_LOOP: u64 = 20;

/// How a provider request failed.
#[derive(Debug, Clone, Copy, PartialEq, Eq, Structural)]
pub enum ProviderFailureKind {
    Authentication,
    RateLimited,
    ContextTooLarge,
    InvalidRequest,
    ProviderUnavailable,
    Transport,
    Internal,
    Unknown,
}

/// The name under which a failure kind is recorded.
pub open spec fn failure_kind_name(kind: ProviderFailureKind) -> Seq<char> {
    match kind {
        ProviderFailureKind::Authentication => "authentication"@,
        ProviderFailureKind::RateLimited => "rate_limited"@,
        ProviderFailureKind::ContextTooLarge => "context_too_large"@,
        ProviderFailureKind::InvalidRequest => "invalid_request"@,
        ProviderFailureKind::ProviderUnavailable => "provider_unavailable"@,
        ProviderFailureKind::Transport => "transport"@,
        ProviderFailureKind::Internal => "internal"@,
        ProviderFailureKind::Unknown => "unknown"@,
    }
}

/// The name under which a failure kind is recorded.
pub fn provider_failure_event_kind(kind: ProviderFailureKind) -> (r: &'static str)
    ensures
        r@ == failure_kind_name(kind),
{
    match kind {
        ProviderFailureKind::Authentication => "authentication",
        ProviderFailureKind::RateLimited => "rate_limited",
        ProviderFailureKind::ContextTooLarge => "context_too_large",
        ProviderFailureKind::InvalidRequest => "invalid_request",
        ProviderFailureKind::ProviderUnavailable => "provider_unavailable",
        ProviderFailureKind::Transport => "transport",
        ProviderFailureKind::Internal => "internal",
        ProviderFailureKind::Unknown => "unknown",
    }
}

/// Whether a turn that is about to make request number `request_num` has gone past the
/// request limit.
pub fn loop_limit_exceeded(request_num: u64) -> (r: bool)
    ensures
        r == (request_num > MAX_REQUEST_LOOP),
{
    request_num > MAX_REQUEST_LOOP
}

/// A count that may be missing, as a number (missing counts nothing).
pub open spec fn count_of(v: Option<u64>) -> nat {
    match v {
        Some(n) => n as nat,
        None => 0,
    }
}

/// Whether the usage reports any input count.
pub open spec fn has_input_count(u: ProviderUsage) -> bool {
    u.input_tokens is Some || u.cache_read_input_tokens is Some || u.cache_creation_input_tokens
        is Some
}

/// The input tokens of a request: fresh input, cache reads and cache writes.
pub open spec fn input_total(u: ProviderUsage) -> nat {
    count_of(u.input_tokens) + count_of(u.cache_read_input_tokens) + count_of(
        u.cache_creation_input_tokens,
    )
}

/// The message of the error for an input total that does not fit in 64 bits.
pub open spec fn input_overflow_message() -> Seq<char> {
    "model input usage overflow during recovery"@
}

/// The input tokens that a usage report accounts for: `None` when it reports no input
/// count; an error when the total does not fit in 64 bits.
pub fn input_tokens_total(usage: &ProviderUsage) -> (r: Result<Option<u64>, Error>)
    ensures
        r matches Ok(Some(n)) ==> has_input_count(*usage) && n == input_total(*usage),
        r matches Ok(None) ==> !has_input_count(*usage),
        r is Err ==> has_input_count(*usage) && input_total(*usage) > u64::MAX,
        r matches Err(e) ==> e matches Error::InvalidEventStream(m) && m@ == input_overflow_message(),
        (r is Ok) == (input_total(*usage) <= u64::MAX),
{
    let parts: [Option<u64>; 3] = [
        usage.input_tokens,
        usage.cache_read_input_tokens,
        usage.cache_creation_input_tokens,
    ];
    let mut total: u64 = 0;
    let mut seen = false;
    let mut i: usize = 0;
    while i < 3
        invariant
            i <= 3,
            parts@ == seq![
                usage.input_tokens,
                usage.cache_read_input_tokens,
                usage.cache_creation_input_tokens,
            ],
            total == (if i > 0 { count_of(parts@[0]) } else { 0 }) + (if i > 1 {
                count_of(parts@[1])
            } else {
                0
            }) + (if i > 2 { count_of(parts@[2]) } else { 0 }),
            seen == ((i > 0 && parts@[0] is Some) || (i > 1 && parts@[1] is Some) || (i > 2
                && parts@[2] is Some)),
        decreases 3 - i,
    {
        match parts[i] {
            Some(value) => {
                match total.checked_add(value) {
                    Some(t) => {
                        total = t;
                    },
                    None => {
                        let message = String::from_str("model input usage overflow during recovery");
                        proof {
                            reveal_strlit("model input usage overflow during recovery");
                        }
                        return Err(Error::InvalidEventStream(message));
                    },
                }
                seen = true;
            },
            None => {},
        }
        i = i + 1;
    }
    if seen {
        Ok(Some(total))
    } else {
        Ok(None)
    }
}

/// Why the size of the recovery suffix cannot be represented.
pub open spec fn suffix_overflow_message() -> Seq<char> {
    "recovery suffix size overflow"@
}

/// Why the recovery suffix is too large to account for.
pub open spec fn suffix_too_large_message() -> Seq<char> {
    "recovery suffix is too large"@
}

/// A conservative token estimate of the recovery suffix: one token per byte of the
/// notice plus the framing overhead.
pub fn conservative_suffix_tokens(text_bytes: usize) -> (r: Result<u32, Error>)
    ensures
        r matches Ok(n) ==> n == text_bytes + RECOVERY_SUFFIX_OVERHEAD_BYTES,
        (r is Ok) == (text_bytes + RECOVERY_SUFFIX_OVERHEAD_BYTES <= u32::MAX),
        r matches Err(e) ==> e matches Error::InvalidEventStream(m) && (if text_bytes
            + RECOVERY_SUFFIX_OVERHEAD_BYTES > usize::MAX {
            m@ == suffix_overflow_message()
        } else {
            m@ == suffix_too_large_message()
        }),
{
    match text_bytes.checked_add(RECOVERY_SUFFIX_OVERHEAD_BYTES) {
        None => {
            let message = String::from_str("recovery suffix size overflow");
            proof {
                reveal_strlit("recovery suffix size overflow");
            }
            Err(Error::InvalidEventStream(message))
        },
        Some(bytes) => {
            if bytes <= 0xffff_ffffusize {
                Ok(bytes as u32)
            } else {
                let message = String::from_str("recovery suffix is too large");
                proof {
                    reveal_strlit("recovery suffix is too large");
                }
                Err(Error::InvalidEventStream(message))
            }
        },
    }
}

/// How many output-limit recoveries a turn may try.
pub const MAX_RECOVERY_ATTEMPTS: u8 = 1;

/// What a turn does after a response stopped at its output limit.
#[derive(Debug, Clone, PartialEq, Eq)]
pub enum RecoveryDecision {
    /// Give up on the turn for this reason (`length` or `loop_limit`).
    Interrupt(String),
    /// Retry the request as request number `next_request_num`.
    Retry { next_request_num: u64 },
}

/// What a turn does after a response stopped at its output limit: give up when its
/// recoveries are spent, when the next request would pass the loop limit, or when there is
/// no request to retry; retry otherwise. Numbering past the largest `u64` is an error.
pub fn recovery_decision(recovery_count: u8, request_num: u64, has_request_base: bool) -> (r: Result<
    RecoveryDecision,
    Error,
>)
    ensures
        recovery_count >= MAX_RECOVERY_ATTEMPTS ==> (r matches Ok(RecoveryDecision::Interrupt(m)) && m@
            == "length"@),
        recovery_count < MAX_RECOVERY_ATTEMPTS && request_num == u64::MAX ==> (r matches Err(e) && e
            matches Error::InvalidEventStream(m) && m@ == "provider request id overflow during recovery"@),
        recovery_count < MAX_RECOVERY_ATTEMPTS && request_num < u64::MAX && request_num + 1
            > MAX_REQUEST_LOOP ==> (r matches Ok(RecoveryDecision::Interrupt(m)) && m@ == "loop_limit"@),
        recovery_count < MAX_RECOVERY_ATTEMPTS && request_num + 1 <= MAX_REQUEST_LOOP
            && !has_request_base ==> (r matches Ok(RecoveryDecision::Interrupt(m)) && m@ == "length"@),
        recovery_count < MAX_RECOVERY_ATTEMPTS && request_num + 1 <= MAX_REQUEST_LOOP
            && has_request_base ==> r == Ok::<RecoveryDecision, Error>(
            RecoveryDecision::Retry { next_request_num: (request_num + 1) as u64 },
        ),
{
    proof {
        reveal_strlit("length");
        reveal_strlit("loop_limit");
        reveal_strlit("provider request id overflow during recovery");
    }
    if recovery_count >= MAX_RECOVERY_ATTEMPTS {
        return Ok(RecoveryDecision::Interrupt(String::from_str("length")));
    }
    let next = match request_num.checked_add(1) {
        Some(n) => n,
        None => {
            return Err(Error::InvalidEventStream(String::from_str("provider request id overflow during recovery")));
        },
    };
    if next > MAX_REQUEST_LOOP {
        return Ok(RecoveryDecision::Interrupt(String::from_str("loop_limit")));
    }
    if !has_request_base {
        return Ok(RecoveryDecision::Interrupt(String::from_str("length")));
    }
    Ok(RecoveryDecision::Retry { next_request_num: next })
}

/// Why a turn that stopped at its output limit ends: after a spent recovery, the output
/// limit and the attempts; otherwise that recovery is unavailable, with the reason.
pub open spec fn interrupt_text(reason: Seq<char>, recovery_count: u8, max_output_tokens: u32) -> Seq<char> {
    if reason == "length"@ && recovery_count > 0 {
        "model reached max_output_tokens="@ + decimal(max_output_tokens as nat) + " after recovery attempt "@
            + decimal(recovery_count as nat) + "/"@ + decimal(MAX_RECOVERY_ATTEMPTS as nat)
            + "; the turn remains incomplete"@
    } else {
        "model output limit reached; recovery unavailable ("@ + reason + ")"@
    }
}

/// Why a turn that stopped at its output limit ends.
pub fn interrupt_message(reason: &str, recovery_count: u8, max_output_tokens: u32) -> (r: String)
    ensures
        r@ == interrupt_text(reason@, recovery_count, max_output_tokens),
{
    proof {
        reveal_strlit("length");
        reveal_strlit("model reached max_output_tokens=");
        reveal_strlit(" after recovery attempt ");
        reveal_strlit("/");
        reveal_strlit("; the turn remains incomplete");
        reveal_strlit("model output limit reached; recovery unavailable (");
        reveal_strlit(")");
    }
    if crate::events::same_text(reason, "length") && recovery_count > 0 {
        let mut m = String::from_str("model reached max_output_tokens=");
        m.append(u64_to_decimal(max_output_tokens as u64).as_str());
        m.append(" after recovery attempt ");
        m.append(u64_to_decimal(recovery_count as u64).as_str());
        m.append("/");
        m.append(u64_to_decimal(MAX_RECOVERY_ATTEMPTS as u64).as_str());
        m.append("; the turn remains incomplete");
        m
    } else {
        let mut m = String::from_str("model output limit reached; recovery unavailable (");
        m.append(reason);
        m.append(")");
        m
    }
}

/// The input estimate that the recovery preflight works with: nothing without a usage
/// report or input counts; an error when the total does not fit the context accounting.
pub fn preflight_estimate(usage: Option<&ProviderUsage>) -> (r: Result<Option<u32>, Error>)
    ensures
        usage is None ==> r == Ok::<Option<u32>, Error>(None),
        usage matches Some(u) ==> {
            &&& !has_input_count(*u) ==> r == Ok::<Option<u32>, Error>(None)
            &&& has_input_count(*u) && input_total(*u) <= u32::MAX ==> r == Ok::<Option<u32>, Error>(
                Some(input_total(*u) as u32),
            )
            &&& has_input_count(*u) && u32::MAX < input_total(*u) <= u64::MAX ==> (r matches Err(e)
                && e matches Error::InvalidEventStream(m) && m@ == "model input usage exceeds context accounting range"@)
            &&& input_total(*u) > u64::MAX ==> (r matches Err(e) && e matches Error::InvalidEventStream(m)
                && m@ == input_overflow_message())
        },
{
    let u = match usage {
        None => {
            return Ok(None);
        },
        Some(u) => u,
    };
    let total = match input_tokens_total(u) {
        Err(e) => {
            return Err(e);
        },
        Ok(None) => {
            return Ok(None);
        },
        Ok(Some(t)) => t,
    };
    if total <= 0xffff_ffffu64 {
        Ok(Some(total as u32))
    } else {
        proof {
            reveal_strlit("model input usage exceeds context accounting range");
        }
        Err(Error::InvalidEventStream(String::from_str("model input usage exceeds context accounting range")))
    }
}

/// Whether the context still has room for the recovery suffix: refused, as a context too
/// large for the provider and model, when the remaining input room is known and smaller
/// than the suffix's conservative estimate.
pub fn preflight_headroom(
    remaining_input_tokens: Option<u32>,
    suffix_tokens: u32,
    provider: Option<String>,
    model: Option<String>,
) -> (r: Result<(), Error>)
    ensures
        r is Err <==> (remaining_input_tokens matches Some(n) && n < suffix_tokens),
        r matches Err(e) ==> e matches Error::Provider { kind, message, provider: p, model: m }
            && kind == ProviderFailureKind::ContextTooLarge && message@
            == "insufficient context headroom for output-limit recovery"@ && p == provider && m == model,
{
    match remaining_input_tokens {
        Some(n) => if n < suffix_tokens {
            proof {
                reveal_strlit("insufficient context headroom for output-limit recovery");
            }
            Err(
                Error::Provider {
                    kind: ProviderFailureKind::ContextTooLarge,
                    message: String::from_str("insufficient context headroom for output-limit recovery"),
                    provider,
                    model,
                },
            )
        } else {
            Ok(())
        },
        None => Ok(()),
    }
}


/// The name that stands for a provider or model the run has not resolved.
pub open spec fn or_unknown(v: Option<String>) -> Seq<char> {
    match v {
        Some(s) => s@,
        None => "unknown"@,
    }
}

/// What a turn about to make request number `request_num` does about the loop limit:
/// past it, the turn fails with an unknown provider failure that names the provider and
/// model (`unknown` where the run has not resolved them); the log then records a model
/// error `loop_limit` for request `req_{request_num}` and interrupts the turn with reason
/// `loop_limit`.
pub fn check_loop_limit(request_num: u64, provider: Option<String>, model: Option<String>) -> (r:
    Result<(), Error>)
    ensures
        r is Err <==> request_num > MAX_REQUEST_LOOP,
        r matches Err(e) ==> e matches Error::Provider { kind, message, provider: Some(p), model: Some(m) }
            && kind == ProviderFailureKind::Unknown && message@
            == "tool loop exceeded maximum provider requests"@ && p@ == or_unknown(provider) && m@
            == or_unknown(model),
{
    if request_num <= MAX_REQUEST_LOOP {
        return Ok(());
    }
    proof {
        reveal_strlit("tool loop exceeded maximum provider requests");
        reveal_strlit("unknown");
    }
    let p = match provider {
        Some(p) => p,
        None => String::from_str("unknown"),
    };
    let m = match model {
        Some(m) => m,
        None => String::from_str("unknown"),
    };
    Err(
        Error::Provider {
            kind: ProviderFailureKind::Unknown,
            message: String::from_str("tool loop exceeded maximum provider requests"),
            provider: Some(p),
            model: Some(m),
        },
    )
}


/// A fact that the session log records when a turn stops at the loop limit.
#[derive(Debug, Clone, PartialEq, Eq)]
pub enum LoopLimitFact {
    /// The model error of the request that would have passed the limit.
    ModelError { request_id: String, kind: String, message: String },
    /// The interruption of the turn.
    TurnInterrupted { reason: String },
}

/// The facts recorded when the turn about to make request number `request_num` stops at the
/// loop limit, in order: the model error `loop_limit` of request `req_{request_num}` with the
/// loop-limit message, then the turn's interruption with reason `loop_limit`.
pub fn loop_limit_facts(request_num: u64) -> (r: Vec<LoopLimitFact>)
    ensures
        r@.len() == 2,
        r@[0] matches LoopLimitFact::ModelError { request_id, kind, message } && request_id@
            == "req_"@ + decimal(request_num as nat) && kind@ == "loop_limit"@ && message@
            == "tool loop exceeded maximum provider requests"@,
        r@[1] matches LoopLimitFact::TurnInterrupted { reason } && reason@ == "loop_limit"@,
{
    proof {
        reveal_strlit("loop_limit");
        reveal_strlit("tool loop exceeded maximum provider requests");
    }
    let mut r: Vec<LoopLimitFact> = Vec::new();
    r.push(
        LoopLimitFact::ModelError {
            request_id: crate::run_step::request_id(request_num),
            kind: String::from_str("loop_limit"),
            message: String::from_str("tool loop exceeded maximum provider requests"),
        },
    );
    r.push(LoopLimitFact::TurnInterrupted { reason: String::from_str("loop_limit") });
    r
}

} // verus!
