use kuku::error::Error;
use kuku::handoff::HandoffDetector;
use kuku::json::{JsonNumber, JsonValue};
use kuku::recovery::ProviderFailureKind;
use kuku::stream::{
    apply_chunk, cancel_stream, new_stream_state, BlockArgs, ChunkOutcome, ProviderChunk,
};

fn text(t: &str) -> ProviderChunk {
    ProviderChunk::TextDelta { text: t.to_string() }
}

#[test]
fn text_and_thinking_accumulate_and_are_handed_out() {
    let mut s = new_stream_state(None);
    let step = apply_chunk(&mut s, ProviderChunk::ThinkingDelta { text: "hmm".into() });
    assert_eq!(step.outcome, ChunkOutcome::EmitThinking("hmm".into()));
    assert!(step.thinking_opened);
    let again = apply_chunk(&mut s, ProviderChunk::ThinkingDelta { text: "…".into() });
    assert!(!again.thinking_opened);
    let step = apply_chunk(&mut s, text("Hello"));
    assert_eq!(step.outcome, ChunkOutcome::EmitText("Hello".into()));
    assert!(step.thinking_closed);
    assert!(!s.thinking_open);
    assert_eq!(s.accumulated_text, "Hello");
    assert_eq!(s.accumulated_thinking, "hmm…");
}

#[test]
fn handoff_blocks_are_kept_out_of_the_visible_text() {
    let mut s = new_stream_state(Some(HandoffDetector::new()));
    let step = apply_chunk(&mut s, text("Done. <kuku_handoff>summary"));
    assert_eq!(step.outcome, ChunkOutcome::EmitText("Done.".into()));
    let step = apply_chunk(&mut s, text(" more</kuku_handoff>"));
    assert_eq!(step.outcome, ChunkOutcome::Quiet);
    assert_eq!(s.accumulated_text, "Done.");
    assert_eq!(s.handoff_detector.unwrap().finish(), Some("summary more".to_string()));
}

#[test]
fn tool_calls_collect_their_arguments() {
    let mut s = new_stream_state(None);
    apply_chunk(&mut s, ProviderChunk::ToolCallStart { index: 0, id: "tc_1".into(), name: "read_file".into() });
    apply_chunk(&mut s, ProviderChunk::ToolCallArgDelta { index: 0, fragment: "{\"path\":".into() });
    apply_chunk(&mut s, ProviderChunk::ToolCallArgDelta { index: 0, fragment: "\"a\"}".into() });
    assert_eq!(s.tool_arg_buffers, vec![(0, "{\"path\":\"a\"}".to_string())]);
    assert_eq!(s.tool_calls[0].args, JsonValue::Object(vec![]));
    let parsed = JsonValue::Object(vec![("path".into(), JsonValue::String("a".into()))]);
    let step = apply_chunk(&mut s, ProviderChunk::ContentBlockStop { index: 0, args: BlockArgs::Parsed(parsed.duplicate()) });
    assert_eq!(step.outcome, ChunkOutcome::Continue);
    assert_eq!(s.tool_calls[0].args, parsed);
    let unknown = apply_chunk(&mut s, ProviderChunk::ContentBlockStop { index: 9, args: BlockArgs::Invalid("x".into()) });
    assert_eq!(unknown.outcome, ChunkOutcome::Continue);
}

#[test]
fn malformed_arguments_fail_the_response() {
    let mut s = new_stream_state(None);
    apply_chunk(&mut s, ProviderChunk::ToolCallStart { index: 3, id: "tc_9".into(), name: "write_file".into() });
    let step = apply_chunk(&mut s, ProviderChunk::ContentBlockStop { index: 3, args: BlockArgs::Invalid("EOF while parsing".into()) });
    assert_eq!(
        step.outcome,
        ChunkOutcome::Fail(Error::Provider {
            kind: ProviderFailureKind::InvalidRequest,
            message: "tool call tc_9 has invalid JSON arguments: EOF while parsing".into(),
            provider: None,
            model: None,
        })
    );
}

#[test]
fn usage_adds_up_and_errors_stop_the_stream() {
    let mut s = new_stream_state(None);
    let usage = |i: u64| ProviderChunk::StreamUsage {
        input_tokens: i,
        output_tokens: 1,
        cache_read_input_tokens: 0,
        cache_creation_input_tokens: 2,
    };
    apply_chunk(&mut s, usage(5));
    apply_chunk(&mut s, usage(7));
    let u = s.usage.unwrap();
    assert_eq!(u.input_tokens, Some(12));
    assert_eq!(u.output_tokens, Some(2));
    assert_eq!(u.cache_read_input_tokens, Some(0));
    assert_eq!(u.cache_creation_input_tokens, Some(4));
    let step = apply_chunk(&mut s, ProviderChunk::ServerError { code: "overloaded".into(), message: "try later".into() });
    assert_eq!(
        step.outcome,
        ChunkOutcome::Fail(Error::Provider {
            kind: ProviderFailureKind::Unknown,
            message: "overloaded: try later".into(),
            provider: None,
            model: None,
        })
    );
}

#[test]
fn stream_start_stop_reason_and_cancel() {
    let mut s = new_stream_state(None);
    apply_chunk(&mut s, ProviderChunk::StreamStart { request_id: "msg_1".into() });
    assert_eq!(s.provider_request_id.as_deref(), Some("msg_1"));
    apply_chunk(&mut s, ProviderChunk::StopReason { reason: "end_turn".into() });
    assert_eq!(s.stop_reason.as_deref(), Some("end_turn"));
    cancel_stream(&mut s);
    assert_eq!(s.stop_reason.as_deref(), Some("cancelled"));
    assert_eq!(apply_chunk(&mut s, ProviderChunk::StreamEnd).outcome, ChunkOutcome::Continue);
    let _ = JsonNumber::Unsigned(0);
}
