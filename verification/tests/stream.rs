use kittens_code::driver::live::{AttemptFailure, FailureClass};
use kittens_code::driver::sse::SseDecoder;
use kittens_code::driver::stream::{DeltaBody, OpenedBlock, StreamEvent, StreamState};
use kittens_code::engine::{ProposedToolCall, Usage};
use kittens_code::protocol::error::ErrorCode;
use serde_json::Value;

fn text_at(v: &Value, pointer: &str) -> Option<String> {
    v.pointer(pointer).and_then(Value::as_str).map(str::to_owned)
}

fn event_of(data: &str) -> Result<StreamEvent, AttemptFailure> {
    let v: Value = serde_json::from_str(data).map_err(|error| {
        AttemptFailure::transport(&format!("malformed model SSE JSON: {error}"))
    })?;
    let index = v.get("index").and_then(Value::as_u64);
    Ok(match v.get("type").and_then(Value::as_str) {
        Some("message_start") => StreamEvent::MessageStart {
            input_tokens: v.pointer("/message/usage/input_tokens").and_then(Value::as_u64),
        },
        Some("content_block_start") => StreamEvent::BlockStart {
            index,
            block: v.get("content_block").map(|b| match b.get("type").and_then(Value::as_str) {
                Some("text") => OpenedBlock::Text { text: text_at(b, "/text") },
                Some("tool_use") => OpenedBlock::ToolUse {
                    name: text_at(b, "/name"),
                    input_json: match b.get("input") {
                        Some(input) => serde_json::to_string(input).unwrap(),
                        None => String::from("{}"),
                    },
                },
                _ => OpenedBlock::Other,
            }),
        },
        Some("content_block_delta") => StreamEvent::BlockDelta {
            index,
            delta: v.get("delta").map(|d| match d.get("type").and_then(Value::as_str) {
                Some("text_delta") => DeltaBody::Text { text: text_at(d, "/text") },
                Some("input_json_delta") => DeltaBody::InputJson {
                    partial_json: text_at(d, "/partial_json"),
                },
                _ => DeltaBody::Other,
            }),
        },
        Some("content_block_stop") => StreamEvent::BlockStop { index },
        Some("message_stop") => StreamEvent::MessageStop,
        Some("error") => StreamEvent::Error {
            error_type: text_at(&v, "/error/type"),
            message: text_at(&v, "/error/message"),
        },
        _ => StreamEvent::Other,
    })
}

fn feed(state: &mut StreamState, data: &str) -> Result<(), AttemptFailure> {
    state.accept(event_of(data)?)
}

#[test]
fn streamed_sse_collects_text_tools_and_usage_across_chunk_boundaries() {
    let wire = [
        "event: message_start\n",
        "data: {\"type\":\"message_start\",\"message\":{\"usage\":{\"input_tokens\":42}}}\n\n",
        "event: content_block_start\n",
        "data: {\"type\":\"content_block_start\",\"index\":0,\"content_block\":{\"type\":\"text\",\"text\":\"\"}}\n\n",
        "data: {\"type\":\"content_block_delta\",\"index\":0,\"delta\":{\"type\":\"text_delta\",\"text\":\"hello\"}}\n\n",
        "data: {\"type\":\"content_block_stop\",\"index\":0}\n\n",
        "data: {\"type\":\"content_block_start\",\"index\":1,\"content_block\":{\"type\":\"tool_use\",\"id\":\"toolu_1\",\"name\":\"read\",\"input\":{}}}\n\n",
        "data: {\"type\":\"content_block_delta\",\"index\":1,\"delta\":{\"type\":\"input_json_delta\",\"partial_json\":\"{\\\"path\\\":\"}}\n\n",
        "data: {\"type\":\"content_block_delta\",\"index\":1,\"delta\":{\"type\":\"input_json_delta\",\"partial_json\":\"\\\"src/lib.rs\\\"}\"}}\n\n",
        "data: {\"type\":\"content_block_stop\",\"index\":1}\n\n",
        "data: {\"type\":\"future_additive_event\"}\n\n",
        "data: {\"type\":\"message_stop\"}\n\n",
    ]
    .concat();
    let mut decoder = SseDecoder::new();
    let mut state = StreamState::new();
    for chunk in wire.as_bytes().chunks(7) {
        for data in decoder.push(chunk).unwrap() {
            feed(&mut state, &data).unwrap();
        }
    }
    for data in decoder.finish().unwrap() {
        feed(&mut state, &data).unwrap();
    }
    let outcome = state.finish(1234).unwrap();

    assert_eq!(outcome.text, "hello");
    assert_eq!(
        outcome.tool_calls,
        vec![ProposedToolCall {
            name: String::from("read"),
            args_json: String::from("{\"path\":\"src/lib.rs\"}"),
        }]
    );
    assert_eq!(
        outcome.usage,
        Some(Usage {
            prompt_tokens: 42,
            prompt_bytes: 1234,
        })
    );
}

#[test]
fn sse_joins_data_lines_and_skips_comments_and_other_fields() {
    let mut decoder = SseDecoder::new();
    let events = decoder
        .push(b": a comment\r\nid: 7\r\ndata: one\r\ndata:two\r\n\r\ndata: three")
        .unwrap();
    assert_eq!(events, vec![String::from("one\ntwo")]);
    assert_eq!(decoder.finish().unwrap(), vec![String::from("three")]);
}

#[test]
fn sse_blank_lines_without_data_dispatch_nothing() {
    let mut decoder = SseDecoder::new();
    assert!(decoder.push(b"\n\nevent: ping\n\n").unwrap().is_empty());
    assert!(decoder.finish().unwrap().is_empty());
}

#[test]
fn sse_keeps_a_split_multibyte_character_until_its_line_ends() {
    let bytes = "data: caf\u{e9}\n\n".as_bytes();
    let mut decoder = SseDecoder::new();
    assert!(decoder.push(&bytes[..9]).unwrap().is_empty());
    assert_eq!(decoder.push(&bytes[9..]).unwrap(), vec![String::from("caf\u{e9}")]);
}

#[test]
fn sse_refuses_a_line_that_is_not_utf8() {
    let mut decoder = SseDecoder::new();
    let error = decoder.push(b"data: \xff\n").unwrap_err();
    assert!(error.starts_with("model SSE contained invalid UTF-8: "));
}

#[test]
fn an_incomplete_stream_is_a_transport_failure() {
    let state = StreamState::new();
    let failure = state.finish(0).unwrap_err();
    assert_eq!(failure.code, ErrorCode::ModelTransport);
    assert_eq!(failure.class, FailureClass::Retryable);
    assert_eq!(
        failure.message,
        "model SSE ended before a complete message_stop sequence"
    );

    let mut open = StreamState::new();
    feed(&mut open, "{\"type\":\"message_start\"}").unwrap();
    feed(
        &mut open,
        "{\"type\":\"content_block_start\",\"index\":3,\"content_block\":{\"type\":\"tool_use\",\"name\":\"grep\"}}",
    )
    .unwrap();
    feed(&mut open, "{\"type\":\"message_stop\"}").unwrap();
    assert!(open.finish(0).is_err());
}

#[test]
fn tool_calls_come_out_in_block_index_order() {
    let mut state = StreamState::new();
    feed(&mut state, "{\"type\":\"message_start\"}").unwrap();
    for index in [5u64, 2, 9] {
        state
            .accept(StreamEvent::BlockStart {
                index: Some(index),
                block: Some(OpenedBlock::ToolUse {
                    name: Some(format!("tool{index}")),
                    input_json: format!("{{\"n\":{index}}}"),
                }),
            })
            .unwrap();
    }
    for index in [9u64, 5, 2] {
        state
            .accept(StreamEvent::BlockStop { index: Some(index) })
            .unwrap();
    }
    state.accept(StreamEvent::MessageStop).unwrap();
    let outcome = state.finish(8).unwrap();
    let names: Vec<&str> = outcome.tool_calls.iter().map(|c| c.name.as_str()).collect();
    assert_eq!(names, vec!["tool2", "tool5", "tool9"]);
    assert_eq!(outcome.tool_calls[0].args_json, "{\"n\":2}");
    assert_eq!(outcome.usage, None);
}

#[test]
fn streamed_tool_input_is_reencoded_and_a_reused_index_replaces_the_call() {
    let mut state = StreamState::new();
    state.accept(StreamEvent::MessageStart { input_tokens: Some(3) }).unwrap();
    for round in 0..2 {
        state
            .accept(StreamEvent::BlockStart {
                index: Some(1),
                block: Some(OpenedBlock::ToolUse {
                    name: Some(format!("edit{round}")),
                    input_json: String::from("{}"),
                }),
            })
            .unwrap();
        state
            .accept(StreamEvent::BlockDelta {
                index: Some(1),
                delta: Some(DeltaBody::InputJson {
                    partial_json: Some(String::from("{ \"a\" : [1, 2] }")),
                }),
            })
            .unwrap();
        state
            .accept(StreamEvent::BlockStop { index: Some(1) })
            .unwrap();
    }
    state.accept(StreamEvent::MessageStop).unwrap();
    let outcome = state.finish(10).unwrap();
    assert_eq!(
        outcome.tool_calls,
        vec![ProposedToolCall {
            name: String::from("edit1"),
            args_json: String::from("{\"a\":[1,2]}"),
        }]
    );
    assert_eq!(
        outcome.usage,
        Some(Usage {
            prompt_tokens: 3,
            prompt_bytes: 10,
        })
    );
}

#[test]
fn malformed_events_are_transport_failures_with_their_reason() {
    let cases: Vec<(StreamEvent, &str)> = vec![
        (
            StreamEvent::BlockStart { index: None, block: Some(OpenedBlock::Other) },
            "content_block_start omitted its index",
        ),
        (
            StreamEvent::BlockStart { index: Some(0), block: None },
            "content_block_start omitted its content block",
        ),
        (
            StreamEvent::BlockStart {
                index: Some(0),
                block: Some(OpenedBlock::ToolUse { name: None, input_json: String::from("{}") }),
            },
            "tool_use block omitted its name",
        ),
        (
            StreamEvent::BlockDelta { index: Some(0), delta: None },
            "content_block_delta omitted its delta",
        ),
        (
            StreamEvent::BlockDelta {
                index: None,
                delta: Some(DeltaBody::InputJson { partial_json: None }),
            },
            "tool delta omitted its index",
        ),
        (
            StreamEvent::BlockDelta {
                index: Some(4),
                delta: Some(DeltaBody::InputJson { partial_json: None }),
            },
            "tool delta named an unopened content block",
        ),
        (
            StreamEvent::BlockStop { index: None },
            "content_block_stop omitted its index",
        ),
    ];
    for (event, message) in cases {
        let mut state = StreamState::new();
        let failure = state.accept(event).unwrap_err();
        assert_eq!(failure.code, ErrorCode::ModelTransport);
        assert_eq!(failure.class, FailureClass::Retryable);
        assert_eq!(failure.message, message);
    }

    let mut state = StreamState::new();
    let open = || StreamEvent::BlockStart {
        index: Some(0),
        block: Some(OpenedBlock::ToolUse {
            name: Some(String::from("read")),
            input_json: String::from("{}"),
        }),
    };
    state.accept(open()).unwrap();
    assert_eq!(
        state.accept(open()).unwrap_err().message,
        "duplicate tool_use content-block index"
    );

    let mut state = StreamState::new();
    state.accept(open()).unwrap();
    state
        .accept(StreamEvent::BlockDelta {
            index: Some(0),
            delta: Some(DeltaBody::InputJson { partial_json: Some(String::from("{\"x\":")) }),
        })
        .unwrap();
    let failure = state
        .accept(StreamEvent::BlockStop { index: Some(0) })
        .unwrap_err();
    assert!(failure.message.starts_with("malformed streamed tool input: "));
}

#[test]
fn provider_error_events_are_classified() {
    let mut state = StreamState::new();
    let failure = feed(
        &mut state,
        "{\"type\":\"error\",\"error\":{\"type\":\"overloaded_error\",\"message\":\"busy\"}}",
    )
    .unwrap_err();
    assert_eq!(failure.code, ErrorCode::ModelOverloaded);
    assert_eq!(failure.message, "busy");

    let failure = state
        .accept(StreamEvent::Error { error_type: None, message: None })
        .unwrap_err();
    assert_eq!(failure.code, ErrorCode::ModelTransport);
    assert_eq!(failure.class, FailureClass::Retryable);
    assert_eq!(failure.message, "provider returned an SSE error");
}

#[test]
fn stop_of_a_text_block_and_unknown_events_change_nothing() {
    let mut state = StreamState::new();
    state.accept(StreamEvent::MessageStart { input_tokens: None }).unwrap();
    state
        .accept(StreamEvent::BlockStart {
            index: Some(0),
            block: Some(OpenedBlock::Text { text: Some(String::from("a")) }),
        })
        .unwrap();
    state
        .accept(StreamEvent::BlockDelta {
            index: None,
            delta: Some(DeltaBody::Text { text: Some(String::from("b")) }),
        })
        .unwrap();
    state.accept(StreamEvent::BlockStop { index: Some(0) }).unwrap();
    state.accept(StreamEvent::Other).unwrap();
    state.accept(StreamEvent::MessageStop).unwrap();
    let outcome = state.finish(0).unwrap();
    assert_eq!(outcome.text, "ab");
    assert!(outcome.tool_calls.is_empty());
}
