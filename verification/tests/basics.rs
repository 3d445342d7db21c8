use kuku::recovery::{check_loop_limit, loop_limit_facts, LoopLimitFact};
use kuku::error::Error;
use kuku::recovery::{
    conservative_suffix_tokens, input_tokens_total, loop_limit_exceeded,
    provider_failure_event_kind, ProviderFailureKind, MAX_REQUEST_LOOP,
    RECOVERY_SUFFIX_OVERHEAD_BYTES,
};
use kuku::session_id::validate_session_id;
use kuku::types::{ProviderUsage, RunOutput, ToolSummary};

#[test]
fn reserved_device_names_with_extensions_are_invalid() {
    for session_id in ["CON.txt", "aux.log", "LPT1.json"] {
        assert!(matches!(
            validate_session_id(session_id),
            Err(Error::InvalidSessionId(ref value)) if value == session_id
        ));
    }
}

#[test]
fn ordinary_session_ids_are_valid() {
    assert!(validate_session_id("20260607-abc_1").is_ok());
    assert!(validate_session_id("COM10").is_ok());
    assert!(validate_session_id("console").is_ok());
}

#[test]
fn malformed_session_ids_are_rejected() {
    for session_id in ["", ".", "..", "a/b", "a\\b", "COM1", "nul", "trailing.", "trailing "] {
        assert!(
            matches!(
                validate_session_id(session_id),
                Err(Error::InvalidSessionId(ref value)) if value == session_id
            ),
            "{session_id:?} should be rejected"
        );
    }
}

#[test]
fn input_usage_overflow_is_not_treated_as_missing() {
    let usage = ProviderUsage {
        input_tokens: Some(u64::MAX),
        output_tokens: None,
        cache_read_input_tokens: Some(1),
        cache_creation_input_tokens: None,
    };

    assert!(matches!(
        input_tokens_total(&usage),
        Err(Error::InvalidEventStream(message))
            if message.contains("input usage overflow")
    ));
}

#[test]
fn input_tokens_total_sums_known_fields() {
    let usage = ProviderUsage {
        input_tokens: Some(100),
        output_tokens: Some(7),
        cache_read_input_tokens: Some(20),
        cache_creation_input_tokens: Some(3),
    };
    assert_eq!(input_tokens_total(&usage).unwrap(), Some(123));
    let empty = ProviderUsage {
        input_tokens: None,
        output_tokens: Some(7),
        cache_read_input_tokens: None,
        cache_creation_input_tokens: None,
    };
    assert_eq!(input_tokens_total(&empty).unwrap(), None);
}

#[test]
fn suffix_estimate_reserves_one_token_per_byte() {
    assert_eq!(
        u32::try_from(4 + RECOVERY_SUFFIX_OVERHEAD_BYTES).unwrap(),
        conservative_suffix_tokens(4).unwrap()
    );
}

#[test]
fn suffix_estimate_rejects_sizes_beyond_u32() {
    let too_big = (u32::MAX as usize).saturating_add(1);
    if too_big > u32::MAX as usize {
        assert!(matches!(
            conservative_suffix_tokens(too_big),
            Err(Error::InvalidEventStream(_))
        ));
    }
}

#[test]
fn loop_limit_is_exceeded_only_past_the_maximum() {
    assert!(!loop_limit_exceeded(MAX_REQUEST_LOOP));
    assert!(loop_limit_exceeded(MAX_REQUEST_LOOP + 1));
}

#[test]
fn provider_failure_kinds_have_event_names() {
    assert_eq!(provider_failure_event_kind(ProviderFailureKind::ContextTooLarge), "context_too_large");
    assert_eq!(provider_failure_event_kind(ProviderFailureKind::Unknown), "unknown");
}

#[test]
fn tool_summary_default_is_all_zeros() {
    let s = ToolSummary::default();
    assert_eq!(s.total_calls, 0);
    assert!(s.names.is_empty());
    assert_eq!(s.denied, 0);
    assert_eq!(s.errors, 0);
    assert_eq!(s.rounds, 0);
}

#[test]
fn run_output_new_has_zero_counters() {
    let output = RunOutput::new("sid".into(), "text".into(), None, 1);
    assert_eq!(output.model_request_count, 0);
    assert_eq!(output.thinking_duration_ms, 0);
    assert_eq!(output.tool_summary, ToolSummary::default());
}

#[test]
fn trim_end_removes_trailing_whitespace_only() {
    assert_eq!(kuku::text::trim_end_str("  hi there \t\n"), "  hi there");
    assert_eq!(kuku::text::trim_end_str(""), "");
    assert_eq!(kuku::text::trim_end_str(" \n "), "");
}

#[test]
fn new_session_ids_are_formatted_and_valid() {
    let id = kuku::session_id::format_session_id(1700000000123, 4321, 7);
    assert_eq!(id, "s_1700000000123_4321_7");
    assert!(validate_session_id(&id).is_ok());
    assert_eq!(kuku::session_id::format_session_id(0, 0, 0), "s_0_0_0");
}

#[test]
fn loop_limit_fails_past_the_limit() {
    assert_eq!(check_loop_limit(20, None, None), Ok(()));
    assert_eq!(
        check_loop_limit(21, Some("anthropic".to_string()), None),
        Err(Error::Provider {
            kind: ProviderFailureKind::Unknown,
            message: "tool loop exceeded maximum provider requests".to_string(),
            provider: Some("anthropic".to_string()),
            model: Some("unknown".to_string()),
        })
    );
}

#[test]
fn loop_limit_facts_name_the_request() {
    assert_eq!(
        loop_limit_facts(21),
        vec![
            LoopLimitFact::ModelError {
                request_id: "req_21".to_string(),
                kind: "loop_limit".to_string(),
                message: "tool loop exceeded maximum provider requests".to_string(),
            },
            LoopLimitFact::TurnInterrupted { reason: "loop_limit".to_string() },
        ]
    );
}
