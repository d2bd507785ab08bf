//! Streams and complete replies of the chat, Responses and Messages dialects.
use agent_shim_providers::anthropic::response::{
    merge_usage, parse_chunk, parse_unary_inner, translate_event, translate_response,
    StreamState as MessagesState,
};
use agent_shim_providers::anthropic::wire::{
    IncomingContentBlock, IncomingContentBlockDelta, IncomingContentBlockStart,
    IncomingErrorPayload, IncomingEvent, IncomingMessageDelta, IncomingMessageStart,
    IncomingMessagesResponse, IncomingUsage,
};
use agent_shim_providers::canonical::{
    BackendTarget, BinarySource, CanonicalRequest, ContentBlock, ExtensionMap, FrontendInfo,
    FrontendKind, FrontendModel, GenerationOptions, ImageBlock, Message, MessageRole, RequestId,
    RequestMetadata, ResolvedPolicy, RoutePolicy, ToolChoice,
};
use agent_shim_providers::deepseek;
use agent_shim_providers::glm;
use agent_shim_providers::json::Json;
use agent_shim_providers::oai_chat_wire::chat_sse_parser::ParserState;
use agent_shim_providers::openai_compatible::parse_stream;
use agent_shim_providers::openai_compatible::parse_unary;
use agent_shim_providers::openai_compatible::responses_api::parse_stream::ResponsesState;
use agent_shim_providers::stream::{
    ContentBlockKind, StopReason, StreamError, StreamEvent, Usage,
};

fn json(text: &str) -> Json {
    Json::parse(text).unwrap()
}

fn texts(events: &[StreamEvent]) -> Vec<&str> {
    events
        .iter()
        .filter_map(|e| match e {
            StreamEvent::TextDelta { text, .. } => Some(text.as_str()),
            _ => None,
        })
        .collect()
}

fn reasonings(events: &[StreamEvent]) -> Vec<&str> {
    events
        .iter()
        .filter_map(|e| match e {
            StreamEvent::ReasoningDelta { text, .. } => Some(text.as_str()),
            _ => None,
        })
        .collect()
}

fn fragments(events: &[StreamEvent]) -> Vec<&str> {
    events
        .iter()
        .filter_map(|e| match e {
            StreamEvent::ToolCallArgumentsDelta { json_fragment, .. } => {
                Some(json_fragment.as_str())
            }
            _ => None,
        })
        .collect()
}

fn stop_reason(events: &[StreamEvent]) -> StopReason {
    events
        .iter()
        .find_map(|e| match e {
            StreamEvent::MessageStop { stop_reason, .. } => Some(stop_reason.clone()),
            _ => None,
        })
        .expect("expected MessageStop")
}

fn final_usage(events: &[StreamEvent]) -> Usage {
    match events.last() {
        Some(StreamEvent::ResponseStop { usage }) => usage.clone().expect("expected usage"),
        other => panic!("last event must be ResponseStop, got {other:?}"),
    }
}

// ── chat ──────────────────────────────────────────────────────────────────

fn chat(state: &mut ParserState, data: &str) -> Vec<StreamEvent> {
    state.handle_event(data).expect("block numbers fit").expect("events")
}

#[test]
fn streaming_yields_text_deltas() {
    let mut state = ParserState::default();
    let mut events = vec![];
    for data in [
        r#"{"id":"chatcmpl-1","object":"chat.completion.chunk","created":1700000000,"model":"gpt-4o","choices":[{"index":0,"delta":{"role":"assistant","content":"Hello"},"finish_reason":null}]}"#,
        r#"{"id":"chatcmpl-1","object":"chat.completion.chunk","created":1700000000,"model":"gpt-4o","choices":[{"index":0,"delta":{"content":" world"},"finish_reason":null}]}"#,
        r#"{"id":"chatcmpl-1","object":"chat.completion.chunk","created":1700000000,"model":"gpt-4o","choices":[{"index":0,"delta":{},"finish_reason":"stop"}]}"#,
        "[DONE]",
    ] {
        events.append(&mut chat(&mut state, data));
    }
    assert_eq!(texts(&events), vec!["Hello", " world"]);
    assert_eq!(stop_reason(&events), StopReason::EndTurn);
    assert!(matches!(events.last(), Some(StreamEvent::ResponseStop { usage: None })));
    assert_eq!(state.finalize(), vec![]);
}

#[test]
fn transport_error_after_done_is_dropped() {
    let mut state = ParserState::default();
    assert_eq!(
        state.handle_transport_error("cut"),
        Some(StreamError::Upstream("cut".to_owned()))
    );
    let mut events = chat(
        &mut state,
        r#"{"id":"chatcmpl-1","model":"copilot-test","created":1700000000,"choices":[{"index":0,"delta":{"role":"assistant","content":"hi"},"finish_reason":"stop"}]}"#,
    );
    assert_eq!(state.handle_transport_error("cut"), None);
    events.append(&mut chat(&mut state, "[DONE]"));
    assert_eq!(state.handle_transport_error("cut"), None);
    events.append(&mut state.finalize());
    let stops = events
        .iter()
        .filter(|e| matches!(e, StreamEvent::ResponseStop { .. }))
        .count();
    assert_eq!(stops, 1);
}

#[test]
fn chat_tool_calls_take_the_numbers_after_the_text() {
    let mut state = ParserState::default();
    let events = chat(
        &mut state,
        r#"{"id":"c","model":"m","created":7,"choices":[{"delta":{"content":"x","tool_calls":[{"index":0,"id":"t0","function":{"name":"f","arguments":""}}]}}]}"#,
    );
    assert_eq!(
        events,
        vec![
            StreamEvent::ResponseStart {
                id: agent_shim_providers::stream::ResponseId("c".to_owned()),
                model: "m".to_owned(),
                created_at_unix: 7,
            },
            StreamEvent::MessageStart { role: MessageRole::Assistant },
            StreamEvent::ContentBlockStart { index: 0, kind: ContentBlockKind::Text },
            StreamEvent::TextDelta { index: 0, text: "x".to_owned() },
            StreamEvent::ContentBlockStop { index: 0 },
            StreamEvent::ContentBlockStart { index: 1, kind: ContentBlockKind::ToolCall },
            StreamEvent::ToolCallStart {
                index: 1,
                id: agent_shim_providers::canonical::ToolCallId("t0".to_owned()),
                name: "f".to_owned(),
            },
        ]
    );
    let events = chat(
        &mut state,
        r#"{"choices":[{"delta":{"tool_calls":[{"index":0,"function":{"arguments":"{}"}}]},"finish_reason":"tool_calls"}],"usage":{"prompt_tokens":3,"completion_tokens":4,"prompt_tokens_details":{"cached_tokens":2}}}"#,
    );
    assert_eq!(fragments(&events), vec!["{}"]);
    assert_eq!(events[1], StreamEvent::ToolCallStop { index: 1 });
    assert_eq!(events[2], StreamEvent::ContentBlockStop { index: 1 });
    assert_eq!(stop_reason(&events), StopReason::ToolUse);
    match events.last() {
        Some(StreamEvent::UsageDelta { usage }) => {
            assert_eq!(usage.input_tokens, Some(3));
            assert_eq!(usage.output_tokens, Some(4));
            assert_eq!(usage.cache_read_input_tokens, Some(2));
        }
        other => panic!("expected UsageDelta, got {other:?}"),
    }
}

#[test]
fn chat_stream_cut_short_is_completed() {
    let mut state = ParserState::default();
    chat(
        &mut state,
        r#"{"id":"c","model":"m","created":7,"choices":[{"delta":{"content":"x"}}]}"#,
    );
    let tail = state.finalize();
    assert_eq!(tail.first(), Some(&StreamEvent::ContentBlockStop { index: 0 }));
    assert!(matches!(tail.last(), Some(StreamEvent::ResponseStop { .. })));
    assert_eq!(state.finalize(), vec![]);
}

#[test]
fn chat_chunk_that_is_no_json_is_an_error() {
    let mut state = ParserState::default();
    assert!(matches!(
        state.handle_event("{"),
        Some(Err(StreamError::Decode(_)))
    ));
    let events = chat(&mut state, r#"{"error":{"message":"busy"}}"#);
    assert!(events.iter().any(|e| matches!(e, StreamEvent::Error { message } if message.contains("busy"))));
}

#[test]
fn chat_block_number_that_does_not_fit_is_reported() {
    let mut state = ParserState::default();
    assert_eq!(
        state.handle_event(
            r#"{"choices":[{"delta":{"tool_calls":[{"index":4294967295,"id":"t"}]}}]}"#
        ),
        None
    );
}

#[test]
fn plain_chunks_are_read_one_by_one() {
    let events = parse_stream::handle_event(
        r#"{"id":"c","model":"m","created":7,"choices":[{"delta":{"content":"x"},"finish_reason":"length"}]}"#,
    )
    .unwrap();
    assert_eq!(texts(&events), vec!["x"]);
    assert_eq!(stop_reason(&events), StopReason::MaxTokens);
    assert!(matches!(
        parse_stream::handle_event("nope"),
        Err(StreamError::Decode(_))
    ));
    assert!(matches!(
        parse_stream::handle_event("[DONE]").unwrap().last(),
        Some(StreamEvent::ResponseStop { .. })
    ));
}

#[test]
fn unary_returns_correct_event_sequence() {
    let body = br#"{
        "id": "chatcmpl-123",
        "object": "chat.completion",
        "created": 1700000000,
        "model": "gpt-4o",
        "choices": [{
            "index": 0,
            "message": {
                "role": "assistant",
                "content": "Hello, world!"
            },
            "finish_reason": "stop"
        }],
        "usage": {
            "prompt_tokens": 10,
            "completion_tokens": 5,
            "total_tokens": 15
        }
    }"#;
    let events = parse_unary::parse_inner(body).expect("fits").expect("parses");
    assert!(matches!(events.first(), Some(StreamEvent::ResponseStart { .. })));
    assert_eq!(texts(&events), vec!["Hello, world!"]);
    assert_eq!(stop_reason(&events), StopReason::EndTurn);
    assert_eq!(final_usage(&events).input_tokens, Some(10));
    assert_eq!(final_usage(&events).output_tokens, Some(5));
}

#[test]
fn unary_reply_that_is_no_json_is_an_error() {
    assert!(matches!(parse_unary::parse_inner(b"{"), Some(Err(_))));
    assert!(matches!(deepseek::response::parse_unary_inner(b"{"), Some(Err(_))));
}

// ── Responses ─────────────────────────────────────────────────────────────

fn responses(state: &mut ResponsesState, list: &[(&str, &str)]) -> Vec<StreamEvent> {
    let mut events = vec![];
    for (event_type, data) in list {
        events.append(&mut state.handle_event(event_type, data).expect("events"));
    }
    events
}

#[test]
fn text_only_lifecycle_is_clean() {
    let mut state = ResponsesState::default();
    let events = responses(
        &mut state,
        &[
            ("response.created", r#"{"id":"resp_1","model":"gpt-4o","created_at":1700000000,"status":"in_progress"}"#),
            ("response.output_item.added", r#"{"output_index":0,"item":{"type":"message","id":"msg_0","role":"assistant","status":"in_progress","content":[]}}"#),
            ("response.output_text.delta", r#"{"item_id":"msg_0","output_index":0,"content_index":0,"delta":"Hello"}"#),
            ("response.output_item.done", r#"{"output_index":0,"item":{"type":"message","id":"msg_0","role":"assistant","status":"completed","content":[{"type":"output_text","text":"Hello","annotations":[]}]}}"#),
            ("response.completed", r#"{"id":"resp_1","object":"response","status":"completed","output":[],"usage":{"input_tokens":3,"output_tokens":1}}"#),
        ],
    );
    assert_eq!(texts(&events), vec!["Hello"]);
    assert!(matches!(events[0], StreamEvent::ResponseStart { created_at_unix: 1700000000, .. }));
    assert_eq!(events[1], StreamEvent::MessageStart { role: MessageRole::Assistant });
    assert_eq!(
        events[2],
        StreamEvent::ContentBlockStart { index: 0, kind: ContentBlockKind::Text }
    );
    assert_eq!(events[4], StreamEvent::ContentBlockStop { index: 0 });
    assert!(matches!(events[5], StreamEvent::MessageStop { .. }));
    assert_eq!(final_usage(&events).input_tokens, Some(3));
    assert_eq!(state.handle_transport_error("cut"), None);
}

#[test]
fn single_function_call_lifecycle_is_clean() {
    let mut state = ResponsesState::default();
    let events = responses(
        &mut state,
        &[
            ("response.created", r#"{"id":"resp_1","model":"gpt-4o","created_at":1700000000,"status":"in_progress"}"#),
            ("response.output_item.added", r#"{"output_index":0,"item":{"type":"function_call","id":"fc_0","call_id":"call_1","name":"get_weather","arguments":"","status":"in_progress"}}"#),
            ("response.function_call_arguments.delta", r#"{"item_id":"fc_0","output_index":0,"delta":"{\"city\":\"SF\"}"}"#),
            ("response.output_item.done", r#"{"output_index":0,"item":{"type":"function_call","id":"fc_0","call_id":"call_1","name":"get_weather","arguments":"{\"city\":\"SF\"}","status":"completed"}}"#),
            ("response.completed", r#"{"id":"resp_1","object":"response","status":"completed","output":[],"usage":{"input_tokens":8,"output_tokens":4}}"#),
        ],
    );
    assert_eq!(fragments(&events).concat(), "{\"city\":\"SF\"}");
    assert!(events
        .iter()
        .any(|e| matches!(e, StreamEvent::ToolCallStart { name, .. } if name == "get_weather")));
    let stop = events.iter().position(|e| matches!(e, StreamEvent::ToolCallStop { index: 0 }));
    let close = events.iter().position(|e| matches!(e, StreamEvent::ContentBlockStop { index: 0 }));
    assert_eq!(stop.unwrap() + 1, close.unwrap());
}

#[test]
fn responses_announce_once() {
    let mut state = ResponsesState::default();
    let created = ("response.created", r#"{"id":"a","model":"m"}"#);
    let progress = ("response.in_progress", r#"{"id":"b","model":"m"}"#);
    let added = ("response.output_item.added", r#"{"output_index":0,"item":{"type":"message"}}"#);
    let again = ("response.output_item.added", r#"{"output_index":1,"item":{"type":"message"}}"#);
    let events = responses(&mut state, &[created, progress, added, again]);
    let count = |wanted: fn(&StreamEvent) -> bool| events.iter().filter(|e| wanted(e)).count();
    assert_eq!(count(|e| matches!(e, StreamEvent::ResponseStart { .. })), 1);
    assert_eq!(count(|e| matches!(e, StreamEvent::MessageStart { .. })), 1);
    assert_eq!(count(|e| matches!(e, StreamEvent::ContentBlockStart { .. })), 2);
}

#[test]
fn responses_failure_and_error_are_events() {
    let mut state = ResponsesState::default();
    let events = responses(
        &mut state,
        &[
            ("error", r#"{"message":"m"}"#),
            ("error", "{}"),
            ("response.failed", r#"{"error":{"message":"f"}}"#),
            ("response.failed", "{}"),
        ],
    );
    let message = |text: &str| StreamEvent::Error { message: text.to_owned() };
    assert_eq!(
        events,
        vec![
            message("m"),
            message("unknown error"),
            message("f"),
            message("upstream response failed")
        ]
    );
    let events = responses(&mut state, &[("response.completed", r#"{"status":"incomplete"}"#)]);
    assert_eq!(stop_reason(&events), StopReason::ContentFilter);
}

#[test]
fn responses_event_that_is_no_json_is_an_error() {
    let mut state = ResponsesState::default();
    assert!(matches!(
        state.handle_event("response.created", "{"),
        Err(StreamError::Decode(_))
    ));
    assert_eq!(
        state.handle_transport_error("cut"),
        Some(StreamError::Upstream("cut".to_owned()))
    );
    assert_eq!(state.handle_event("response.unheard_of", "{}"), Ok(vec![]));
}

// ── Messages ──────────────────────────────────────────────────────────────

fn counts(input: Option<u32>, output: Option<u32>) -> IncomingUsage {
    IncomingUsage {
        input_tokens: input,
        output_tokens: output,
        cache_creation_input_tokens: None,
        cache_read_input_tokens: None,
    }
}

fn message_start(usage: Option<IncomingUsage>) -> IncomingEvent {
    IncomingEvent::MessageStart {
        message: IncomingMessageStart {
            id: "msg_1".to_owned(),
            model: "test".to_owned(),
            usage,
        },
    }
}

fn message_delta(stop_reason: &str, usage: Option<IncomingUsage>) -> IncomingEvent {
    IncomingEvent::MessageDelta {
        change: IncomingMessageDelta {
            stop_reason: Some(stop_reason.to_owned()),
            stop_sequence: None,
        },
        usage,
    }
}

fn block_delta(delta: IncomingContentBlockDelta) -> IncomingEvent {
    IncomingEvent::ContentBlockDelta { index: 0, delta }
}

fn block_start(content_block: IncomingContentBlockStart) -> IncomingEvent {
    IncomingEvent::ContentBlockStart { index: 0, content_block }
}

fn messages(list: Vec<IncomingEvent>) -> Vec<StreamEvent> {
    let mut state = MessagesState::default();
    let mut out = vec![];
    for event in list {
        out.append(&mut parse_chunk("{}", Ok(event), &mut state).expect("events"));
    }
    out
}

#[test]
fn parse_stream_text_only() {
    let out = messages(vec![
        message_start(Some(counts(Some(10), Some(0)))),
        block_start(IncomingContentBlockStart::Text { text: String::new() }),
        block_delta(IncomingContentBlockDelta::TextDelta { text: "Hello".to_owned() }),
        block_delta(IncomingContentBlockDelta::TextDelta { text: " world".to_owned() }),
        IncomingEvent::ContentBlockStop { index: 0 },
        message_delta("end_turn", Some(counts(None, Some(5)))),
        IncomingEvent::MessageStop,
    ]);
    assert!(matches!(out[0], StreamEvent::ResponseStart { .. }));
    assert!(matches!(out[1], StreamEvent::MessageStart { role: MessageRole::Assistant }));
    assert_eq!(texts(&out), vec!["Hello", " world"]);
    let u = final_usage(&out);
    assert_eq!(u.input_tokens, Some(10));
    assert_eq!(u.output_tokens, Some(5));
    assert_eq!(stop_reason(&out), StopReason::EndTurn);
}

#[test]
fn parse_stream_tool_use() {
    let out = messages(vec![
        message_start(None),
        block_start(IncomingContentBlockStart::ToolUse {
            id: "call_1".to_owned(),
            name: "search".to_owned(),
        }),
        block_delta(IncomingContentBlockDelta::InputJsonDelta {
            partial_json: "{\"q\":".to_owned(),
        }),
        block_delta(IncomingContentBlockDelta::InputJsonDelta {
            partial_json: "\"rust\"}".to_owned(),
        }),
        IncomingEvent::ContentBlockStop { index: 0 },
        message_delta("tool_use", None),
        IncomingEvent::MessageStop,
    ]);
    let tool_start = out.iter().find(|e| matches!(e, StreamEvent::ToolCallStart { .. }));
    match tool_start {
        Some(StreamEvent::ToolCallStart { id, name, .. }) => {
            assert_eq!(id.0, "call_1");
            assert_eq!(name, "search");
        }
        other => panic!("expected ToolCallStart, got {:?}", other),
    }
    assert_eq!(fragments(&out).join(""), r#"{"q":"rust"}"#);
    assert_eq!(stop_reason(&out), StopReason::ToolUse);
}

#[test]
fn parse_stream_thinking_deltas() {
    let out = messages(vec![
        message_start(None),
        block_start(IncomingContentBlockStart::Thinking { thinking: String::new() }),
        block_delta(IncomingContentBlockDelta::ThinkingDelta { thinking: "hmm...".to_owned() }),
        block_delta(IncomingContentBlockDelta::SignatureDelta { signature: "sig-abc".to_owned() }),
        IncomingEvent::ContentBlockStop { index: 0 },
        message_delta("end_turn", None),
        IncomingEvent::MessageStop,
    ]);
    assert_eq!(reasonings(&out), vec!["hmm..."]);
    let starts = out
        .iter()
        .filter(|e| {
            matches!(
                e,
                StreamEvent::ContentBlockStart { kind: ContentBlockKind::Reasoning, .. }
            )
        })
        .count();
    assert_eq!(starts, 1);
}

#[test]
fn parse_stream_error_event_propagates() {
    let out = messages(vec![IncomingEvent::Error {
        error: IncomingErrorPayload {
            kind: "overloaded_error".to_owned(),
            message: "too busy".to_owned(),
        },
    }]);
    match out.first() {
        Some(StreamEvent::Error { message }) => {
            assert!(message.contains("overloaded_error"));
            assert!(message.contains("too busy"));
        }
        other => panic!("expected Error, got {:?}", other),
    }
}

#[test]
fn parse_stream_ping_is_dropped() {
    let out = messages(vec![
        IncomingEvent::Ping,
        message_start(None),
        IncomingEvent::MessageStop,
    ]);
    assert_eq!(out.len(), 4);
    assert!(out.iter().any(|e| matches!(e, StreamEvent::ResponseStart { .. })));
    assert!(out.iter().any(|e| matches!(e, StreamEvent::MessageStop { .. })));
    let mut state = MessagesState::default();
    assert_eq!(translate_event(IncomingEvent::Ping, &mut state), vec![]);
    let bad = || Err("bad".to_owned());
    assert_eq!(parse_chunk("", bad(), &mut state), Ok(vec![]));
    assert_eq!(parse_chunk(" \t\r\n\u{a0}\u{3000}", bad(), &mut state), Ok(vec![]));
    assert!(parse_chunk("{", bad(), &mut state).unwrap_err().contains("bad"));
}

fn unary_response(content: Vec<IncomingContentBlock>, stop: &str) -> IncomingMessagesResponse {
    IncomingMessagesResponse {
        id: "msg_unary_1".to_owned(),
        model: "test".to_owned(),
        content,
        stop_reason: Some(stop.to_owned()),
        stop_sequence: None,
        usage: Some(counts(Some(8), Some(3))),
    }
}

#[test]
fn parse_unary_text_response() {
    let reply = unary_response(
        vec![IncomingContentBlock::Text { text: "Hello world".to_owned() }],
        "end_turn",
    );
    let out = parse_unary_inner(b"{}", Ok(reply.clone())).expect("events");
    assert_eq!(out, translate_response(reply));
    assert!(matches!(out.first(), Some(StreamEvent::ResponseStart { .. })));
    assert_eq!(texts(&out), vec!["Hello world"]);
    assert_eq!(stop_reason(&out), StopReason::EndTurn);
    let u = final_usage(&out);
    assert_eq!(u.input_tokens, Some(8));
    assert_eq!(u.output_tokens, Some(3));
}

#[test]
fn parse_unary_tool_use_response() {
    let out = translate_response(unary_response(
        vec![IncomingContentBlock::ToolUse {
            id: "call_x".to_owned(),
            name: "search".to_owned(),
            input: json(r#"{"q":"foo"}"#),
        }],
        "tool_use",
    ));
    let tool_start = out
        .iter()
        .find(|e| matches!(e, StreamEvent::ToolCallStart { .. }))
        .expect("tool call start");
    if let StreamEvent::ToolCallStart { id, name, .. } = tool_start {
        assert_eq!(id.0, "call_x");
        assert_eq!(name, "search");
    }
    let v: serde_json::Value = serde_json::from_str(fragments(&out)[0]).unwrap();
    assert_eq!(v["q"], "foo");
    assert_eq!(stop_reason(&out), StopReason::ToolUse);
}

#[test]
fn parse_unary_error_envelope_propagates() {
    let body = br#"{
        "type": "error",
        "error": {"type": "rate_limit_error", "message": "slow down"}
    }"#;
    let out = parse_unary_inner(body, Err("missing field `id`".to_owned())).expect("events");
    match out.first() {
        Some(StreamEvent::Error { message }) => {
            assert!(message.contains("rate_limit_error"));
            assert!(message.contains("slow down"));
        }
        other => panic!("expected Error, got {:?}", other),
    }
    assert!(parse_unary_inner(b"{", Err("EOF".to_owned())).is_err());
}

#[test]
fn counts_only_grow() {
    let mut held = Usage { input_tokens: Some(9), ..Usage::default() };
    let more = Usage { input_tokens: Some(4), output_tokens: Some(2), ..Usage::default() };
    merge_usage(&mut held, &more);
    assert_eq!(held.input_tokens, Some(9));
    assert_eq!(held.output_tokens, Some(2));
}

// ── DeepSeek and GLM ──────────────────────────────────────────────────────

fn deepseek_stream(list: &[&str]) -> Vec<StreamEvent> {
    let mut state = deepseek::response::StreamState::default();
    let mut events = vec![];
    for data in list {
        events.append(&mut state.handle_event(data).expect("fits").expect("events"));
    }
    events
}

#[test]
fn text_stream_yields_canonical_events() {
    let events = deepseek_stream(&[
        r#"{"id":"chatcmpl-1","object":"chat.completion.chunk","created":1700000000,"model":"deepseek-chat","choices":[{"index":0,"delta":{"role":"assistant","content":""},"finish_reason":null}]}"#,
        r#"{"id":"chatcmpl-1","object":"chat.completion.chunk","created":1700000000,"model":"deepseek-chat","choices":[{"index":0,"delta":{"content":"Hello"},"finish_reason":null}]}"#,
        r#"{"id":"chatcmpl-1","object":"chat.completion.chunk","created":1700000000,"model":"deepseek-chat","choices":[{"index":0,"delta":{"content":" world"},"finish_reason":null}]}"#,
        r#"{"id":"chatcmpl-1","object":"chat.completion.chunk","created":1700000000,"model":"deepseek-chat","choices":[{"index":0,"delta":{},"finish_reason":"stop"}],"usage":{"prompt_tokens":10,"completion_tokens":5,"prompt_cache_hit_tokens":0,"prompt_cache_miss_tokens":10}}"#,
        "[DONE]",
    ]);
    assert!(matches!(events.first(), Some(StreamEvent::ResponseStart { .. })));
    assert!(events.iter().any(|e| matches!(e, StreamEvent::MessageStart { .. })));
    let starts = events
        .iter()
        .filter(|e| {
            matches!(e, StreamEvent::ContentBlockStart { kind: ContentBlockKind::Text, .. })
        })
        .count();
    assert_eq!(starts, 1);
    assert_eq!(texts(&events), vec!["Hello", " world"]);
    assert_eq!(stop_reason(&events), StopReason::EndTurn);
    let usage = events
        .iter()
        .find_map(|e| match e {
            StreamEvent::UsageDelta { usage } => Some(usage.clone()),
            _ => None,
        })
        .expect("expected UsageDelta");
    assert_eq!(usage.input_tokens, Some(10));
    assert_eq!(usage.output_tokens, Some(5));
    assert_eq!(usage.cache_read_input_tokens, Some(0));
    assert_eq!(usage.cache_creation_input_tokens, None);
    assert!(matches!(events.last(), Some(StreamEvent::ResponseStop { .. })));
}

const REASONING: [&str; 5] = [
    r#"{"id":"chatcmpl-2","object":"chat.completion.chunk","created":1700000000,"model":"deepseek-reasoner","choices":[{"index":0,"delta":{"role":"assistant","reasoning_content":"Let me think"},"finish_reason":null}]}"#,
    r#"{"id":"chatcmpl-2","object":"chat.completion.chunk","created":1700000000,"model":"deepseek-reasoner","choices":[{"index":0,"delta":{"reasoning_content":" about this"},"finish_reason":null}]}"#,
    r#"{"id":"chatcmpl-2","object":"chat.completion.chunk","created":1700000000,"model":"deepseek-reasoner","choices":[{"index":0,"delta":{"content":"42"},"finish_reason":null}]}"#,
    r#"{"id":"chatcmpl-2","object":"chat.completion.chunk","created":1700000000,"model":"deepseek-reasoner","choices":[{"index":0,"delta":{},"finish_reason":"stop"}],"usage":{"prompt_tokens":15,"completion_tokens":8,"prompt_cache_hit_tokens":0,"prompt_cache_miss_tokens":15}}"#,
    "[DONE]",
];

#[test]
fn reasoning_stream_yields_interleaved_reasoning_and_text() {
    let events = deepseek_stream(&REASONING);
    let position = |wanted: StreamEvent| events.iter().position(|e| *e == wanted).expect("event");
    let reasoning_start = position(StreamEvent::ContentBlockStart {
        index: 0,
        kind: ContentBlockKind::Reasoning,
    });
    let reasoning_stop = position(StreamEvent::ContentBlockStop { index: 0 });
    let text_start = position(StreamEvent::ContentBlockStart {
        index: 1,
        kind: ContentBlockKind::Text,
    });
    assert!(reasoning_start < reasoning_stop);
    assert!(reasoning_stop < text_start);
    assert_eq!(reasonings(&events), vec!["Let me think", " about this"]);
    assert_eq!(texts(&events), vec!["42"]);
    assert!(events.iter().any(|e| matches!(e, StreamEvent::TextDelta { index: 1, .. })));
    assert_eq!(stop_reason(&events), StopReason::EndTurn);
}

#[test]
fn re_exported_parsers_resolve_to_deepseek_impl() {
    let unary: fn(&[u8]) -> Option<Result<Vec<StreamEvent>, String>> =
        glm::response::parse_unary_inner;
    assert!(matches!(unary(b"{"), Some(Err(_))));
    let state: deepseek::response::StreamState = glm::response::StreamState::default();
    assert!(!state.completed);
}

#[test]
fn cache_hit_unary_populates_cache_read_input_tokens() {
    let body = br#"{
    "id": "chatcmpl-3",
    "object": "chat.completion",
    "created": 1700000000,
    "model": "deepseek-chat",
    "choices": [{
        "index": 0,
        "message": {"role": "assistant", "content": "Cached answer"},
        "finish_reason": "stop"
    }],
    "usage": {
        "prompt_tokens": 100,
        "completion_tokens": 12,
        "prompt_cache_hit_tokens": 80,
        "prompt_cache_miss_tokens": 20
    }
}"#;
    let events = deepseek::response::parse_unary_inner(body).expect("fits").expect("events");
    match events.first() {
        Some(StreamEvent::ResponseStart { id, .. }) => assert_eq!(id.0, "chatcmpl-3"),
        other => panic!("first event must be ResponseStart, got {other:?}"),
    }
    assert_eq!(texts(&events), vec!["Cached answer"]);
    let usage = final_usage(&events);
    assert_eq!(usage.input_tokens, Some(20));
    assert_eq!(usage.cache_read_input_tokens, Some(80));
    assert_eq!(usage.cache_creation_input_tokens, None);
    assert_eq!(usage.output_tokens, Some(12));
    let raw = usage.provider_raw.expect("provider_raw must be populated");
    assert_eq!(raw.u64_member("prompt_cache_hit_tokens"), Some(80));
    assert_eq!(raw.u64_member("prompt_cache_miss_tokens"), Some(20));
    assert_eq!(raw.u64_member("prompt_tokens"), Some(100));
}

#[test]
fn deepseek_done_closes_every_block() {
    let mut state = deepseek::response::StreamState::default();
    state
        .handle_event(
            r#"{"id":"c","model":"m","choices":[{"delta":{"content":"x","tool_calls":[{"index":0,"id":"t","function":{"name":"f"}},{"index":1,"id":"u","function":{"name":"g"}}]}}]}"#,
        )
        .unwrap()
        .unwrap();
    let tail = state.handle_event("[DONE]").unwrap().unwrap();
    assert_eq!(tail.last(), Some(&StreamEvent::ResponseStop { usage: None }));
    let stops: Vec<u32> = tail
        .iter()
        .filter_map(|e| match e {
            StreamEvent::ContentBlockStop { index } => Some(*index),
            _ => None,
        })
        .collect();
    assert_eq!(stops, vec![1, 2]);
}

#[test]
fn deepseek_transport_error_after_done_is_dropped() {
    let mut state = deepseek::response::StreamState::default();
    assert_eq!(
        state.handle_transport_error("cut"),
        Some(StreamError::Upstream("cut".to_owned()))
    );
    for data in REASONING {
        state.handle_event(data).unwrap().unwrap();
    }
    assert_eq!(state.handle_transport_error("cut"), None);
}

// ── pictures in every dialect ─────────────────────────────────────────────

fn req_with_image(frontend: FrontendKind, model: &str) -> CanonicalRequest {
    CanonicalRequest {
        id: RequestId("req".to_owned()),
        frontend: FrontendInfo {
            kind: frontend,
            requested_model: FrontendModel(model.to_owned()),
        },
        model: FrontendModel(model.to_owned()),
        system: vec![],
        messages: vec![Message::user(vec![
            ContentBlock::text("describe this picture"),
            ContentBlock::Image(ImageBlock {
                source: BinarySource::Url {
                    url: "https://example.com/cat.png".to_owned(),
                },
                extensions: ExtensionMap::new(),
            }),
        ])],
        tools: vec![],
        tool_choice: ToolChoice::Auto,
        generation: GenerationOptions::default(),
        response_format: None,
        stream: false,
        metadata: RequestMetadata::default(),
        inbound_anthropic_headers: vec![],
        resolved_policy: ResolvedPolicy::default(),
        extensions: ExtensionMap::new(),
    }
}

fn target(provider: &str, model: &str) -> BackendTarget {
    BackendTarget {
        provider: provider.to_owned(),
        model: model.to_owned(),
        policy: RoutePolicy::default(),
    }
}

fn value(text: &str) -> serde_json::Value {
    serde_json::from_str(text).unwrap()
}

fn openai_body(frontend: FrontendKind) -> serde_json::Value {
    agent_shim_providers::openai_compatible::OpenAiCompatibleProvider::new(
        "openai",
        "https://o.example",
        "test-key",
        &vec![],
        30,
    )
    .unwrap()
    .plan_completion(&req_with_image(frontend, "gpt-4o"), &target("openai", "gpt-4o"))
    .body
    .to_value()
}

#[test]
fn vision_anthropic_to_openai_compat() {
    assert_eq!(
        openai_body(FrontendKind::AnthropicMessages)["messages"],
        value(
            r#"[{"role":"user","content":[
                {"type":"text","text":"describe this picture"},
                {"type":"image_url","image_url":{"url":"https://example.com/cat.png"}}
            ]}]"#
        )
    );
}

#[test]
fn vision_openai_chat_to_openai_compat() {
    assert_eq!(
        openai_body(FrontendKind::OpenAiChat)["messages"],
        value(
            r#"[{"role":"user","content":[
                {"type":"text","text":"describe this picture"},
                {"type":"image_url","image_url":{"url":"https://example.com/cat.png"}}
            ]}]"#
        )
    );
}

#[test]
fn vision_anthropic_to_anthropic_canonical() {
    let out = agent_shim_providers::anthropic::AnthropicProvider::new(
        "anthropic",
        "https://a.example",
        "test-key",
        "2023-06-01",
        &vec![],
        30,
    )
    .unwrap()
    .plan_completion(
        &req_with_image(FrontendKind::OpenAiChat, "opus-4-7"),
        &target("anthropic", "opus-4-7"),
    );
    assert_eq!(out.url, "https://a.example/v1/messages");
    assert_eq!(
        out.body.to_value()["messages"],
        value(
            r#"[{"role":"user","content":[
                {"type":"text","text":"describe this picture"},
                {"type":"image","source":{"type":"url","url":"https://example.com/cat.png"}}
            ]}]"#
        )
    );
}

fn gemini_contents(frontend: FrontendKind) -> serde_json::Value {
    let out = agent_shim_providers::gemini::GeminiProvider::new(
        "gemini",
        "https://g.example",
        "test-key",
        &vec![],
        30,
    )
    .unwrap()
    .plan_completion(
        &req_with_image(frontend, "gemini-2.0-flash"),
        &target("gemini", "gemini-2.0-flash"),
    );
    assert_eq!(out.url, "https://g.example/models/gemini-2.0-flash:generateContent");
    out.body.to_value()["contents"].clone()
}

#[test]
fn vision_anthropic_to_gemini() {
    let contents = gemini_contents(FrontendKind::AnthropicMessages);
    assert_eq!(contents[0]["role"], "user");
    assert_eq!(contents[0]["parts"][0], value(r#"{"text":"describe this picture"}"#));
    assert_eq!(
        contents[0]["parts"][1]["fileData"]["fileUri"],
        "https://example.com/cat.png"
    );
}

#[test]
fn vision_openai_chat_to_gemini() {
    assert_eq!(
        gemini_contents(FrontendKind::OpenAiChat),
        gemini_contents(FrontendKind::AnthropicMessages)
    );
}
