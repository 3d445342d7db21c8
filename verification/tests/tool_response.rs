use kuku::json::{JsonNumber, JsonValue};
use kuku::tool_response::{validate_tool_calls, ArgumentBuffer, ToolResponseError};
use kuku::types::ProviderToolCall;

fn call(id: &str, name: &str, index: u64) -> ProviderToolCall {
    ProviderToolCall { id: id.into(), name: name.into(), args: JsonValue::Null, index }
}

fn object(key: &str, value: u64) -> JsonValue {
    JsonValue::Object(vec![(key.to_string(), JsonValue::Number(JsonNumber::Unsigned(value)))])
}

#[test]
fn valid_calls_receive_their_arguments() {
    let out = validate_tool_calls(
        vec![call("a", "read_file", 0), call("b", "bash", 1)],
        vec![(1, ArgumentBuffer::Parsed(object("n", 5))), (0, ArgumentBuffer::Empty)],
        vec![1, 0],
        false,
    )
    .unwrap();
    assert_eq!(out.len(), 2);
    assert_eq!(out[0].id, "a");
    assert_eq!(out[0].args, JsonValue::Object(vec![]));
    assert_eq!(out[1].args, object("n", 5));
}

#[test]
fn stream_and_call_problems_are_reported_in_order() {
    assert_eq!(
        validate_tool_calls(vec![call("a", "x", 0)], vec![], vec![], true),
        Err(ToolResponseError::InvalidLifecycle)
    );
    assert_eq!(validate_tool_calls(vec![], vec![], vec![], false), Err(ToolResponseError::MissingCalls));
    assert_eq!(
        validate_tool_calls(vec![call(" ", "x", 0)], vec![], vec![], false),
        Err(ToolResponseError::EmptyId)
    );
    assert_eq!(
        validate_tool_calls(vec![call("a", "\t", 0)], vec![], vec![], false),
        Err(ToolResponseError::EmptyName)
    );
    assert_eq!(
        validate_tool_calls(vec![call("a", "x", 0), call("a", "y", 1)], vec![], vec![], false),
        Err(ToolResponseError::DuplicateId)
    );
    assert_eq!(
        validate_tool_calls(vec![call("a", "x", 0), call("b", "y", 0)], vec![], vec![], false),
        Err(ToolResponseError::DuplicateIndex)
    );
}

#[test]
fn mapping_problems_are_reported() {
    let calls = || vec![call("a", "x", 0), call("b", "y", 1)];
    assert_eq!(
        validate_tool_calls(calls(), vec![(0, ArgumentBuffer::Empty)], vec![0, 1], false),
        Err(ToolResponseError::InvalidBufferMapping)
    );
    assert_eq!(
        validate_tool_calls(calls(), vec![(0, ArgumentBuffer::Empty), (1, ArgumentBuffer::Empty)], vec![0], false),
        Err(ToolResponseError::InvalidCompletionMapping)
    );
    assert_eq!(
        validate_tool_calls(calls(), vec![(0, ArgumentBuffer::Empty), (1, ArgumentBuffer::Empty)], vec![0, 0], false),
        Err(ToolResponseError::InvalidCompletionMapping)
    );
    assert_eq!(
        validate_tool_calls(calls(), vec![(0, ArgumentBuffer::Empty), (1, ArgumentBuffer::Empty)], vec![0, 7], false),
        Err(ToolResponseError::InvalidCompletionMapping)
    );
    assert_eq!(
        validate_tool_calls(calls(), vec![(0, ArgumentBuffer::Empty), (0, ArgumentBuffer::Empty)], vec![0, 1], false),
        Err(ToolResponseError::InvalidBufferMapping)
    );
    assert_eq!(
        validate_tool_calls(calls(), vec![(0, ArgumentBuffer::Empty), (5, ArgumentBuffer::Empty)], vec![0, 1], false),
        Err(ToolResponseError::InvalidBufferMapping)
    );
}

#[test]
fn arguments_must_be_json_objects() {
    assert_eq!(
        validate_tool_calls(vec![call("a", "x", 0)], vec![(0, ArgumentBuffer::Malformed)], vec![0], false),
        Err(ToolResponseError::InvalidArguments)
    );
    assert_eq!(
        validate_tool_calls(
            vec![call("a", "x", 0)],
            vec![(0, ArgumentBuffer::Parsed(JsonValue::Array(vec![])))],
            vec![0],
            false
        ),
        Err(ToolResponseError::InvalidArguments)
    );
}
