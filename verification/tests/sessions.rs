//! Whole exchanges: the request that is planned, and the events of the reply.
use agent_shim_providers::anthropic::passthrough::{
    find_only_string_span, find_top_level_string_value_span, rewrite_model, scan_value_end, Span,
};
use agent_shim_providers::anthropic::response::{parse_chunk, parse_unary_inner, StreamState};
use agent_shim_providers::anthropic::wire::{
    IncomingContentBlock, IncomingContentBlockDelta, IncomingContentBlockStart, IncomingEvent,
    IncomingMessageDelta, IncomingMessageStart, IncomingMessagesResponse, IncomingUsage,
};
use agent_shim_providers::anthropic::AnthropicProvider;
use agent_shim_providers::canonical::{
    BackendTarget, CanonicalRequest, ContentBlock, ExtensionMap, FrontendInfo, FrontendKind,
    FrontendModel, GenerationOptions, Message, RequestId, RequestMetadata, ResolvedPolicy,
    RoutePolicy, ToolChoice,
};
use agent_shim_providers::deepseek;
use agent_shim_providers::gemini::response::StreamState as GeminiState;
use agent_shim_providers::gemini::response::{identifiers_needed, parse_unary};
use agent_shim_providers::gemini::stream::{Frame, Scanner};
use agent_shim_providers::gemini::synthesis::synthesize;
use agent_shim_providers::gemini::wire::{
    Candidate, Content, FileData, FunctionCall, GenerateContentResponse, InlineData, Part,
    PromptFeedback, SafetyRating, UsageMetadata,
};
use agent_shim_providers::gemini::GeminiProvider;
use agent_shim_providers::github_copilot::credential_store::StoredCredentials;
use agent_shim_providers::github_copilot::token_manager::{
    CopilotToken, TokenAction, TokenCache, TokenEvent, TokenStep,
};
use agent_shim_providers::json::Json;
use agent_shim_providers::oai_chat_wire::chat_sse_parser::ParserState;
use agent_shim_providers::oai_chat_wire::interleaved_reasoning::{DeltaKind, ReasoningInterleaver};
use agent_shim_providers::openai_compatible::parse_unary::parse_inner;
use agent_shim_providers::stream::{
    ContentBlockKind, ResponseId, StopReason, StreamError, StreamEvent, Usage,
};
use agent_shim_providers::text::is_blank;
use agent_shim_providers::ProviderError;

fn json(text: &str) -> Json {
    Json::parse(text).unwrap()
}

fn target(model: &str) -> BackendTarget {
    BackendTarget {
        provider: "p".to_owned(),
        model: model.to_owned(),
        policy: RoutePolicy::default(),
    }
}

fn request(kind: FrontendKind, stream: bool) -> CanonicalRequest {
    CanonicalRequest {
        id: RequestId("req".to_owned()),
        frontend: FrontendInfo {
            kind,
            requested_model: FrontendModel("gpt-4o".to_owned()),
        },
        model: FrontendModel("gpt-4o".to_owned()),
        system: vec![],
        messages: vec![Message::user(vec![ContentBlock::text("hello")])],
        tools: vec![],
        tool_choice: ToolChoice::Auto,
        generation: GenerationOptions::default(),
        response_format: None,
        stream,
        metadata: RequestMetadata::default(),
        inbound_anthropic_headers: vec![],
        resolved_policy: ResolvedPolicy::default(),
        extensions: ExtensionMap::new(),
    }
}

fn texts(events: &[StreamEvent]) -> Vec<&str> {
    events
        .iter()
        .filter_map(|e| match e {
            StreamEvent::TextDelta { text, .. } => Some(text.as_str()),
            _ => None,
        })
        .collect()
}

fn stop_reason(events: &[StreamEvent]) -> StopReason {
    events
        .iter()
        .find_map(|e| match e {
            StreamEvent::MessageStop { stop_reason, .. } => Some(stop_reason.clone()),
            _ => None,
        })
        .expect("expected MessageStop")
}

fn final_usage(events: &[StreamEvent]) -> Usage {
    match events.last() {
        Some(StreamEvent::ResponseStop { usage }) => usage.clone().expect("expected usage"),
        other => panic!("last event must be ResponseStop, got {other:?}"),
    }
}

/// The kind of an event and the number of its block.
fn outline(event: &StreamEvent) -> (&'static str, u32) {
    match event {
        StreamEvent::ResponseStart { .. } => ("ResponseStart", 0),
        StreamEvent::MessageStart { .. } => ("MessageStart", 0),
        StreamEvent::ContentBlockStart { index, .. } => ("ContentBlockStart", *index),
        StreamEvent::TextDelta { index, .. } => ("TextDelta", *index),
        StreamEvent::ReasoningDelta { index, .. } => ("ReasoningDelta", *index),
        StreamEvent::ToolCallStart { index, .. } => ("ToolCallStart", *index),
        StreamEvent::ToolCallArgumentsDelta { index, .. } => ("ToolCallArgumentsDelta", *index),
        StreamEvent::ToolCallStop { index } => ("ToolCallStop", *index),
        StreamEvent::ContentBlockStop { index } => ("ContentBlockStop", *index),
        StreamEvent::UsageDelta { .. } => ("UsageDelta", 0),
        StreamEvent::MessageStop { .. } => ("MessageStop", 0),
        StreamEvent::ResponseStop { .. } => ("ResponseStop", 0),
        StreamEvent::RawProviderEvent { .. } => ("RawProviderEvent", 0),
        StreamEvent::Error { .. } => ("Error", 0),
    }
}

fn outlines(events: &[StreamEvent]) -> Vec<(&'static str, u32)> {
    events.iter().map(outline).collect()
}

/// Outlines without usage, where consecutive pieces of a block count once.
fn joined(events: &[StreamEvent]) -> Vec<(&'static str, u32)> {
    let mut out: Vec<(&'static str, u32)> = vec![];
    for o in outlines(events) {
        let piece = o.0 == "TextDelta" || o.0 == "ReasoningDelta" || o.0 == "ToolCallArgumentsDelta";
        if o.0 != "UsageDelta" && !(piece && out.last() == Some(&o)) {
            out.push(o);
        }
    }
    out
}

fn block_numbers(events: &[StreamEvent]) -> Vec<u32> {
    events
        .iter()
        .filter_map(|e| match e {
            StreamEvent::ContentBlockStart { index, .. } => Some(*index),
            _ => None,
        })
        .collect()
}

// ── Messages ──────────────────────────────────────────────────────────────

fn messages_provider() -> AnthropicProvider {
    AnthropicProvider::new(
        "anthropic",
        "https://a.example",
        "test-key",
        "2023-06-01",
        &vec![],
        30,
    )
    .unwrap()
}

fn check_messages_request(stream: bool) {
    let plan = messages_provider()
        .plan_completion(&request(FrontendKind::OpenAiChat, stream), &target("opus-4-7"));
    assert_eq!(plan.url, "https://a.example/v1/messages");
    for (name, value) in [
        ("x-api-key", "test-key"),
        ("anthropic-version", "2023-06-01"),
        ("content-type", "application/json"),
    ] {
        assert!(plan.headers.contains(&(name.to_owned(), value.to_owned())), "{name}");
    }
    let body = plan.body.to_value();
    assert_eq!(body["model"], "opus-4-7");
    assert_eq!(body["stream"], stream);
}

fn counts(input: Option<u32>, output: Option<u32>) -> IncomingUsage {
    IncomingUsage {
        input_tokens: input,
        output_tokens: output,
        cache_creation_input_tokens: None,
        cache_read_input_tokens: None,
    }
}

fn message_start(id: &str, input: u32) -> IncomingEvent {
    IncomingEvent::MessageStart {
        message: IncomingMessageStart {
            id: id.to_owned(),
            model: "opus-4-7".to_owned(),
            usage: Some(counts(Some(input), Some(0))),
        },
    }
}

fn text_start(index: u32) -> IncomingEvent {
    IncomingEvent::ContentBlockStart {
        index,
        content_block: IncomingContentBlockStart::Text { text: String::new() },
    }
}

fn text_piece(index: u32, text: &str) -> IncomingEvent {
    IncomingEvent::ContentBlockDelta {
        index,
        delta: IncomingContentBlockDelta::TextDelta { text: text.to_owned() },
    }
}

fn tool_start(index: u32) -> IncomingEvent {
    IncomingEvent::ContentBlockStart {
        index,
        content_block: IncomingContentBlockStart::ToolUse {
            id: "toolu_1".to_owned(),
            name: "get_weather".to_owned(),
        },
    }
}

fn tool_piece(index: u32, fragment: &str) -> IncomingEvent {
    IncomingEvent::ContentBlockDelta {
        index,
        delta: IncomingContentBlockDelta::InputJsonDelta { partial_json: fragment.to_owned() },
    }
}

fn message_delta(stop: &str, output: u32) -> IncomingEvent {
    IncomingEvent::MessageDelta {
        change: IncomingMessageDelta {
            stop_reason: Some(stop.to_owned()),
            stop_sequence: None,
        },
        usage: Some(counts(None, Some(output))),
    }
}

fn messages(list: Vec<IncomingEvent>) -> Vec<StreamEvent> {
    let mut state = StreamState::default();
    let mut out = vec![];
    for event in list {
        out.append(&mut parse_chunk("{}", Ok(event), &mut state).expect("events"));
    }
    out
}

#[test]
fn canonical_path_text_stream_yields_correct_events() {
    check_messages_request(true);
    let events = messages(vec![
        message_start("msg_text_1", 5),
        text_start(0),
        text_piece(0, "Hello"),
        text_piece(0, " world"),
        IncomingEvent::ContentBlockStop { index: 0 },
        message_delta("end_turn", 2),
        IncomingEvent::MessageStop,
    ]);
    assert!(matches!(events.first(), Some(StreamEvent::ResponseStart { .. })));
    assert!(events.iter().any(|e| matches!(e, StreamEvent::MessageStart { .. })));
    assert!(events.iter().any(|e| matches!(
        e,
        StreamEvent::ContentBlockStart { kind: ContentBlockKind::Text, .. }
    )));
    assert_eq!(texts(&events), vec!["Hello", " world"]);
    assert_eq!(stop_reason(&events), StopReason::EndTurn);
    let u = final_usage(&events);
    assert_eq!(u.input_tokens, Some(5));
    assert_eq!(u.output_tokens, Some(2));
}

#[test]
fn canonical_path_tool_call_stream_yields_tool_events() {
    check_messages_request(true);
    let events = messages(vec![
        message_start("msg_tool_1", 12),
        tool_start(0),
        tool_piece(0, r#"{"city":"#),
        tool_piece(0, r#""Paris"}"#),
        IncomingEvent::ContentBlockStop { index: 0 },
        message_delta("tool_use", 7),
        IncomingEvent::MessageStop,
    ]);
    assert!(events.iter().any(|e| matches!(
        e,
        StreamEvent::ContentBlockStart { kind: ContentBlockKind::ToolCall, .. }
    )));
    match events.iter().find(|e| matches!(e, StreamEvent::ToolCallStart { .. })) {
        Some(StreamEvent::ToolCallStart { id, name, .. }) => {
            assert_eq!(id.0, "toolu_1");
            assert_eq!(name, "get_weather");
        }
        other => panic!("expected ToolCallStart, got {other:?}"),
    }
    let fragments: Vec<&str> = events
        .iter()
        .filter_map(|e| match e {
            StreamEvent::ToolCallArgumentsDelta { json_fragment, .. } => {
                Some(json_fragment.as_str())
            }
            _ => None,
        })
        .collect();
    assert_eq!(fragments, vec![r#"{"city":"#, r#""Paris"}"#]);
    let parsed: serde_json::Value = serde_json::from_str(&fragments.join("")).unwrap();
    assert_eq!(parsed["city"], "Paris");
    assert_eq!(stop_reason(&events), StopReason::ToolUse);
}

fn whole(id: &str, content: Vec<IncomingContentBlock>, stop: &str) -> IncomingMessagesResponse {
    IncomingMessagesResponse {
        id: id.to_owned(),
        model: "opus-4-7".to_owned(),
        content,
        stop_reason: Some(stop.to_owned()),
        stop_sequence: None,
        usage: Some(counts(Some(4), Some(3))),
    }
}

#[test]
fn canonical_path_unary_response_yields_correct_events() {
    check_messages_request(false);
    let reply = whole(
        "msg_unary_1",
        vec![IncomingContentBlock::Text { text: "Hi there!".to_owned() }],
        "end_turn",
    );
    let events = parse_unary_inner(b"{}", Ok(reply)).expect("events");
    match events.first() {
        Some(StreamEvent::ResponseStart { id, .. }) => assert_eq!(id.0, "msg_unary_1"),
        other => panic!("first event must be ResponseStart, got {other:?}"),
    }
    assert_eq!(texts(&events), vec!["Hi there!"]);
    assert_eq!(stop_reason(&events), StopReason::EndTurn);
    let u = final_usage(&events);
    assert_eq!(u.input_tokens, Some(4));
    assert_eq!(u.output_tokens, Some(3));
}

#[test]
fn proxy_raw_attempts_passthrough_for_anthropic_messages() {
    let result = messages_provider().plan_proxy(
        br#"{"model":"alias","messages":[{"role":"user","content":"hi"}],"max_tokens":1}"#,
        &target("opus-4-7"),
        FrontendKind::AnthropicMessages,
    );
    assert!(!matches!(result, Ok(None)));
    assert!(matches!(result, Ok(Some(_))));
}

#[test]
fn streamed_message_and_whole_message_mirror_each_other() {
    let streamed = messages(vec![
        message_start("msg_1", 5),
        IncomingEvent::Ping,
        text_start(0),
        text_piece(0, "It is "),
        text_piece(0, "sunny"),
        IncomingEvent::ContentBlockStop { index: 0 },
        tool_start(1),
        tool_piece(1, r#"{"city": "#),
        tool_piece(1, r#""Paris"}"#),
        IncomingEvent::ContentBlockStop { index: 1 },
        message_delta("tool_use", 7),
        IncomingEvent::MessageStop,
    ]);
    let reply = whole(
        "msg_1",
        vec![
            IncomingContentBlock::Text { text: "It is sunny".to_owned() },
            IncomingContentBlock::ToolUse {
                id: "toolu_1".to_owned(),
                name: "get_weather".to_owned(),
                input: json(r#"{"city":"Paris"}"#),
            },
        ],
        "tool_use",
    );
    let at_once = parse_unary_inner(b"{}", Ok(reply)).expect("events");
    assert_eq!(joined(&streamed), joined(&at_once));
    assert_eq!(
        joined(&streamed)[5..],
        [
            ("ContentBlockStart", 1),
            ("ToolCallStart", 1),
            ("ToolCallArgumentsDelta", 1),
            ("ToolCallStop", 1),
            ("ContentBlockStop", 1),
            ("MessageStop", 0),
            ("ResponseStop", 0),
        ]
    );
}

#[test]
fn any_number_of_reports_may_come_with_a_message() {
    let sequence = IncomingEvent::MessageDelta {
        change: IncomingMessageDelta {
            stop_reason: None,
            stop_sequence: Some("END".to_owned()),
        },
        usage: Some(counts(Some(9), Some(1))),
    };
    let streamed = messages(vec![
        message_start("msg_1", 5),
        message_delta("max_tokens", 3),
        text_start(0),
        sequence,
        text_piece(0, "hi"),
        IncomingEvent::ContentBlockStop { index: 0 },
        message_delta("end_turn", 2),
        IncomingEvent::MessageStop,
        IncomingEvent::Ping,
    ]);
    let mut reply = whole(
        "msg_1",
        vec![IncomingContentBlock::Text { text: "hi".to_owned() }],
        "end_turn",
    );
    reply.stop_sequence = Some("END".to_owned());
    let at_once = parse_unary_inner(b"{}", Ok(reply)).expect("events");
    assert_eq!(joined(&streamed), joined(&at_once));
    assert_eq!(streamed[streamed.len() - 2], at_once[at_once.len() - 2]);
    let u = final_usage(&streamed);
    assert_eq!((u.input_tokens, u.output_tokens), (Some(9), Some(3)));
    // Nothing reported and nothing to say.
    let silent = messages(vec![message_start("msg_1", 5), IncomingEvent::MessageStop]);
    assert_eq!(stop_reason(&silent), StopReason::EndTurn);
}

#[test]
fn blank_data_is_told_from_data() {
    assert!(is_blank(""));
    assert!(is_blank(" \t\n\u{b}\u{c}\r\u{85}\u{a0}\u{1680}\u{2000}\u{200a}\u{2028}\u{2029}"));
    assert!(is_blank("\u{202f}\u{205f}\u{3000}"));
    assert!(!is_blank("  {}"));
    assert!(!is_blank("\u{200b}"));
    assert!(!is_blank("\u{1680}x"));
}

// ── passthrough ───────────────────────────────────────────────────────────

#[test]
fn values_that_do_not_end_have_no_end() {
    assert_eq!(scan_value_end(b"t", 0), None);
    assert_eq!(scan_value_end(b"tru", 0), None);
    assert_eq!(scan_value_end(b"trux", 0), None);
    assert_eq!(scan_value_end(b"fals", 0), None);
    assert_eq!(scan_value_end(b"nul", 0), None);
    assert_eq!(scan_value_end(b"\"open", 0), None);
    assert_eq!(scan_value_end(b"[1,2", 0), None);
    assert_eq!(scan_value_end(b"{\"a\":\"}\"", 0), None);
    assert_eq!(scan_value_end(b"?", 0), None);
    assert_eq!(scan_value_end(b"", 0), None);
}

#[test]
fn complete_values_end_behind_their_last_byte() {
    assert_eq!(scan_value_end(b"true,", 0), Some(4));
    assert_eq!(scan_value_end(b"false", 0), Some(5));
    assert_eq!(scan_value_end(b" null]", 1), Some(5));
    assert_eq!(scan_value_end(b"-1.5e+3,", 0), Some(7));
    assert_eq!(scan_value_end(br#""a\"b" "#, 0), Some(6));
    assert_eq!(scan_value_end(br#"{"a":["}",{"b":{}}]} tail"#, 0), Some(20));
    assert_eq!(scan_value_end(br#"[[],"]",{"c":"["}]x"#, 0), Some(18));
}

#[test]
fn body_without_its_closing_brace_is_refused() {
    let body = br#"{"model":"x""#;
    assert_eq!(find_top_level_string_value_span(body, "model"), None);
    assert!(matches!(rewrite_model(body, "new"), Err(ProviderError::Decode(_))));
    let tail = br#"{"model":"x"} tail"#;
    assert_eq!(find_top_level_string_value_span(tail, "model"), None);
    assert!(matches!(rewrite_model(tail, "new"), Err(ProviderError::Decode(_))));
    let broken = br#"{"model":"x","n":[1,}]}"#;
    assert_eq!(find_only_string_span(broken, "model"), Some(Span { start: 9, end: 12 }));
    assert_eq!(find_top_level_string_value_span(broken, "model"), None);
    assert!(matches!(rewrite_model(broken, "new"), Err(ProviderError::Decode(_))));
}

#[test]
fn every_member_of_the_name_is_rewritten() {
    for body in [
        r#"{"model":"a","model":"b"}"#,
        r#"{"model":"a","\u006dodel":"b"}"#,
        r#"{"\u006dodel":"a","n":1}"#,
        r#"{"model":"a","n":{"model":"c"}}"#,
        r#"{"n":true,"model":"a"}"#,
        r#"{"model":7}"#,
        r#"{}"#,
    ] {
        let out = rewrite_model(body.as_bytes(), "new").unwrap();
        let v: serde_json::Value = serde_json::from_slice(&out).unwrap();
        assert_eq!(v["model"], "new", "{body}");
    }
}

#[test]
fn escaped_name_is_written_out_again() {
    let body = br#"{"mod\u0065l":"x"}"#;
    assert_eq!(find_only_string_span(body, "model"), None);
    assert_eq!(find_top_level_string_value_span(body, "model"), None);
    assert_eq!(rewrite_model(body, "new").unwrap(), br#"{"model":"new"}"#.to_vec());
    // An escape in another name is no hindrance.
    let other = br#"{"m\u0065ta":"x","model":"y"}"#;
    assert_eq!(
        rewrite_model(other, "new").unwrap(),
        br#"{"m\u0065ta":"x","model":"new"}"#.to_vec()
    );
}

#[test]
fn only_one_member_is_spliced() {
    assert_eq!(
        find_top_level_string_value_span(br#"{"model":"a","model":"b"}"#, "model"),
        None
    );
    assert_eq!(
        find_top_level_string_value_span(br#"{"model":"a","\u006dodel":"b"}"#, "model"),
        None
    );
    assert_eq!(find_top_level_string_value_span(br#"{"\u006dodel":"b"}"#, "model"), None);
    assert_eq!(
        find_top_level_string_value_span(br#" {"k\"" : null , "model" : "a" } "#, "model"),
        Some(Span { start: 27, end: 30 })
    );
    let spaced = br#" {"k" : [ 1 ] , "model" : "a" } "#;
    assert_eq!(
        rewrite_model(spaced, "new").unwrap(),
        br#" {"k" : [ 1 ] , "model" : "new" } "#.to_vec()
    );
    let once = rewrite_model(spaced, "first").unwrap();
    assert_eq!(rewrite_model(&once, "second"), rewrite_model(spaced, "second"));
}

// ── chat ──────────────────────────────────────────────────────────────────

const WIDE_ERROR: &str = r#"{"error":{"message":"overloaded"},"choices":[{"index":0,"delta":{"tool_calls":[{"index":4294967295,"id":"c","function":{"name":"f","arguments":"{}"}}]}}]}"#;

fn overloaded() -> StreamEvent {
    StreamEvent::Error { message: "overloaded".to_owned() }
}

#[test]
fn error_comes_before_block_numbers() {
    let mut chat = ParserState::default();
    assert_eq!(chat.handle_event(WIDE_ERROR), Some(Ok(vec![overloaded()])));
    assert_eq!(chat.handle_event(&WIDE_ERROR.replacen("error", "other", 1)), None);
    let mut deep = deepseek::response::StreamState::default();
    assert_eq!(deep.handle_event(WIDE_ERROR), Some(Ok(vec![overloaded()])));
    let whole = r#"{"error":{"message":"overloaded"},"choices":[]}"#;
    let events = parse_inner(whole.as_bytes()).unwrap().unwrap();
    assert_eq!(events, vec![overloaded()]);
}

#[test]
fn chat_chunks_announce_the_response_first() {
    let mut state = ParserState::default();
    let mut events = vec![];
    for data in [
        WIDE_ERROR,
        r#"{"id":"c1","model":"m","choices":[],"usage":{"prompt_tokens":1}}"#,
        r#"{"id":"c2","model":"m","choices":[{"delta":{"content":"hi"}}]}"#,
        r#"{"id":"c3","model":"m","choices":[{"delta":{},"finish_reason":"stop"}]}"#,
        r#"{"id":"c4","model":"m","choices":[{"delta":{},"finish_reason":"stop"}]}"#,
    ] {
        events.extend(state.handle_event(data).unwrap().unwrap());
    }
    let seen = outlines(&events);
    assert_eq!(seen[0], ("Error", 0));
    assert_eq!(seen[1], ("ResponseStart", 0));
    for (kind, times) in [
        ("ResponseStart", 1),
        ("MessageStart", 1),
        ("MessageStop", 1),
        ("ResponseStop", 0),
    ] {
        assert_eq!(seen.iter().filter(|o| o.0 == kind).count(), times, "{kind}");
    }
    let message = seen.iter().position(|o| o.0 == "MessageStart").unwrap();
    let block = seen.iter().position(|o| o.0 == "ContentBlockStart").unwrap();
    assert!(message < block);
}

// ── DeepSeek ──────────────────────────────────────────────────────────────

fn deepseek_provider() -> deepseek::DeepseekProvider {
    deepseek::DeepseekProvider::new("deepseek", "https://d.example", "test-key", &vec![], 30)
        .unwrap()
}

fn deep(list: &[&str]) -> Vec<StreamEvent> {
    let mut state = deepseek::response::StreamState::default();
    let mut out = vec![];
    for data in list {
        out.extend(state.handle_event(data).unwrap().unwrap());
    }
    out
}

#[test]
fn canonical_path_with_anthropic_frontend_renders_reasoning_then_text() {
    let plan = deepseek_provider().plan_completion(
        &request(FrontendKind::AnthropicMessages, true),
        &target("deepseek-reasoner"),
    );
    assert_eq!(plan.url, "https://d.example/chat/completions");
    assert_eq!(plan.bearer.as_deref(), Some("test-key"));
    let body = plan.body.to_value();
    assert_eq!(body["model"], "deepseek-reasoner");
    assert_eq!(body["stream"], true);

    let events = deep(&[
        r#"{"id":"chatcmpl-2","object":"chat.completion.chunk","created":1700000000,"model":"deepseek-reasoner","choices":[{"index":0,"delta":{"role":"assistant","reasoning_content":"Let me think"},"finish_reason":null}]}"#,
        r#"{"id":"chatcmpl-2","object":"chat.completion.chunk","created":1700000000,"model":"deepseek-reasoner","choices":[{"index":0,"delta":{"reasoning_content":" about this"},"finish_reason":null}]}"#,
        r#"{"id":"chatcmpl-2","object":"chat.completion.chunk","created":1700000000,"model":"deepseek-reasoner","choices":[{"index":0,"delta":{"content":"42"},"finish_reason":null}]}"#,
        r#"{"id":"chatcmpl-2","object":"chat.completion.chunk","created":1700000000,"model":"deepseek-reasoner","choices":[{"index":0,"delta":{},"finish_reason":"stop"}],"usage":{"prompt_tokens":15,"completion_tokens":8,"prompt_cache_hit_tokens":0,"prompt_cache_miss_tokens":15}}"#,
        "[DONE]",
    ]);
    let reasoning_start_pos = events
        .iter()
        .position(|e| {
            matches!(
                e,
                StreamEvent::ContentBlockStart { index: 0, kind: ContentBlockKind::Reasoning }
            )
        })
        .expect("expected Reasoning ContentBlockStart at index 0");
    let reasoning_stop_pos = events
        .iter()
        .position(|e| matches!(e, StreamEvent::ContentBlockStop { index: 0 }))
        .expect("expected ContentBlockStop for reasoning block at index 0");
    let text_start_pos = events
        .iter()
        .position(|e| {
            matches!(
                e,
                StreamEvent::ContentBlockStart { index: 1, kind: ContentBlockKind::Text }
            )
        })
        .expect("expected Text ContentBlockStart at index 1");
    assert!(reasoning_start_pos < reasoning_stop_pos);
    assert!(reasoning_stop_pos < text_start_pos);
    let reasoning_texts: Vec<&str> = events
        .iter()
        .filter_map(|e| match e {
            StreamEvent::ReasoningDelta { index: 0, text } => Some(text.as_str()),
            _ => None,
        })
        .collect();
    assert_eq!(reasoning_texts, vec!["Let me think", " about this"]);
    let text_texts: Vec<&str> = events
        .iter()
        .filter_map(|e| match e {
            StreamEvent::TextDelta { index: 1, text } => Some(text.as_str()),
            _ => None,
        })
        .collect();
    assert_eq!(text_texts, vec!["42"]);
}

#[test]
fn calm_deepseek_stream_counts_its_blocks_up() {
    let events = deep(&[
        r#"{"id":"c","choices":[{"delta":{"role":"assistant","reasoning_content":"hm"}}]}"#,
        r#"{"id":"c","choices":[{"delta":{"content":"ok"}}]}"#,
        r#"{"id":"c","choices":[{"delta":{"tool_calls":[{"index":0,"id":"a","function":{"name":"f","arguments":"{"}},{"index":1,"id":"b","function":{"name":"g"}}]}}]}"#,
        r#"{"id":"c","choices":[{"delta":{"tool_calls":[{"index":0,"function":{"arguments":"}"}}]},"finish_reason":"tool_calls"}]}"#,
    ]);
    assert_eq!(block_numbers(&events), vec![0, 1, 2, 3]);
    assert_eq!(
        outlines(&events)[events.len() - 5..],
        [
            ("ToolCallStop", 2),
            ("ContentBlockStop", 2),
            ("ToolCallStop", 3),
            ("ContentBlockStop", 3),
            ("MessageStop", 0),
        ]
    );
}

#[test]
fn second_strip_finds_nothing() {
    let mut body = json(
        r#"{"messages":[{"role":"user","cache_control":{},"content":[{"text":"x","cache_control":{}}]}],"model":"m"}"#,
    );
    assert_eq!(deepseek::request::strip_cache_control(&mut body), 2);
    let once = body.duplicate();
    assert_eq!(deepseek::request::strip_cache_control(&mut body), 0);
    assert_eq!(body, once);
}

// ── Generate Content ──────────────────────────────────────────────────────

fn part_text(text: &str) -> Part {
    Part { text: Some(text.to_owned()), ..Part::default() }
}

fn part_call(name: &str) -> Part {
    Part {
        function_call: Some(FunctionCall {
            name: name.to_owned(),
            args: Some(json("{}")),
            id: Some("call_1".to_owned()),
        }),
        ..Part::default()
    }
}

fn part_image() -> Part {
    Part {
        inline_data: Some(InlineData {
            mime_type: "image/png".to_owned(),
            data: "iVBORw0K".to_owned(),
        }),
        ..Part::default()
    }
}

fn part_file() -> Part {
    Part {
        file_data: Some(FileData {
            mime_type: "image/png".to_owned(),
            file_uri: "https://f.example/x.png".to_owned(),
        }),
        ..Part::default()
    }
}

fn reply(parts: Vec<Part>, finish: Option<&str>) -> GenerateContentResponse {
    GenerateContentResponse {
        candidates: vec![Candidate {
            content: Content { role: "model".to_owned(), parts },
            finish_reason: finish.map(String::from),
            safety_ratings: vec![],
            index: None,
            citation_metadata: None,
        }],
        prompt_feedback: None,
        usage_metadata: None,
    }
}

fn tokens(prompt: i64, candidates: i64, total: i64) -> UsageMetadata {
    UsageMetadata {
        prompt_token_count: Some(prompt),
        candidates_token_count: Some(candidates),
        total_token_count: Some(total),
        thoughts_token_count: None,
    }
}

fn fresh_for(resp: &GenerateContentResponse) -> Vec<String> {
    (0..identifiers_needed(resp)).map(|i| format!("fresh_{i}")).collect()
}

fn gemini(responses: Vec<GenerateContentResponse>) -> Vec<StreamEvent> {
    let mut state = GeminiState::new(
        "gemini-2.0-flash".to_owned(),
        ResponseId("resp_1".to_owned()),
    );
    let mut events = vec![];
    for resp in responses {
        let fresh = fresh_for(&resp);
        events.extend(state.handle(resp, &fresh, 7).unwrap());
    }
    events.extend(state.finalize());
    events
}

fn check_gemini_request(kind: FrontendKind, stream: bool, method: &str) {
    let plan = GeminiProvider::new("gemini", "https://g.example/v1beta", "test-key", &vec![], 30)
        .unwrap()
        .plan_completion(&request(kind, stream), &target("gemini-2.0-flash"));
    assert_eq!(
        plan.url,
        format!("https://g.example/v1beta/models/gemini-2.0-flash:{method}")
    );
}

fn hello_world() -> Vec<GenerateContentResponse> {
    let mut last = reply(vec![part_text(" world")], Some("STOP"));
    last.usage_metadata = Some(tokens(3, 2, 5));
    vec![reply(vec![part_text("Hello")], None), last]
}

#[test]
fn streaming_text_response_yields_canonical_event_sequence() {
    check_gemini_request(FrontendKind::OpenAiChat, true, "streamGenerateContent");
    let events = gemini(hello_world());
    assert_eq!(texts(&events).concat(), "Hello world");
    match events.first() {
        Some(StreamEvent::ResponseStart { model, .. }) => assert_eq!(model, "gemini-2.0-flash"),
        other => panic!("expected ResponseStart, got {other:?}"),
    }
    assert_eq!(stop_reason(&events), StopReason::EndTurn);
    let usage = final_usage(&events);
    assert_eq!(usage.input_tokens, Some(3));
    assert_eq!(usage.output_tokens, Some(2));
}

#[test]
fn cross_protocol_anthropic_request_routes_through_gemini_unchanged() {
    check_gemini_request(FrontendKind::AnthropicMessages, true, "streamGenerateContent");
    assert_eq!(texts(&gemini(hello_world())).concat(), "Hello world");
}

#[test]
fn unary_inline_image_decodes_base64_into_canonical_image_block() {
    check_gemini_request(FrontendKind::OpenAiChat, false, "generateContent");
    let mut resp = reply(vec![part_text("Here is your image:"), part_image()], Some("STOP"));
    resp.usage_metadata = Some(tokens(4, 8, 12));
    let fresh = fresh_for(&resp);
    let canonical = parse_unary(
        resp,
        "gemini-2.0-flash",
        ResponseId("resp_1".to_owned()),
        &fresh,
    );
    let events = synthesize(canonical, 7).unwrap();
    assert_eq!(texts(&events).concat(), "Here is your image:");
}

#[test]
fn call_changes_the_stop_reason_of_a_natural_end_only() {
    for (finish, expected) in [
        (Some("STOP"), StopReason::ToolUse),
        (None, StopReason::ToolUse),
        (Some("MAX_TOKENS"), StopReason::MaxTokens),
        (Some("SAFETY"), StopReason::ContentFilter),
        (Some("RECITATION"), StopReason::ContentFilter),
        (Some("OTHER_REASON"), StopReason::Other("OTHER_REASON".to_owned())),
    ] {
        let events = gemini(vec![reply(vec![part_call("f")], finish)]);
        assert_eq!(stop_reason(&events), expected);
        let resp = reply(vec![part_call("f")], finish);
        let fresh = fresh_for(&resp);
        let whole = parse_unary(resp, "m", ResponseId("r".to_owned()), &fresh);
        assert_eq!(whole.stop_reason, expected);
    }
}

#[test]
fn prompt_feedback_is_handed_on_when_streaming() {
    let blocked = GenerateContentResponse {
        candidates: vec![],
        prompt_feedback: Some(PromptFeedback {
            block_reason: Some("SAFETY".to_owned()),
            safety_ratings: vec![],
        }),
        usage_metadata: None,
    };
    let events = gemini(vec![blocked]);
    assert_eq!(
        outlines(&events),
        vec![
            ("ResponseStart", 0),
            ("MessageStart", 0),
            ("RawProviderEvent", 0),
            ("MessageStop", 0),
            ("ResponseStop", 0),
        ]
    );
    assert_eq!(
        events[2],
        StreamEvent::RawProviderEvent {
            name: "gemini.prompt_feedback".to_owned(),
            payload: json(r#"{"blockReason":"SAFETY","safetyRatings":[]}"#),
        }
    );
    let mut rated = reply(vec![part_text("hi")], None);
    rated.prompt_feedback = Some(PromptFeedback {
        block_reason: None,
        safety_ratings: vec![SafetyRating {
            category: "C".to_owned(),
            probability: "LOW".to_owned(),
            blocked: Some(false),
        }],
    });
    let events = gemini(vec![rated]);
    assert_eq!(outline(&events[3]), ("ContentBlockStart", 0));
    assert_eq!(
        events[2],
        StreamEvent::RawProviderEvent {
            name: "gemini.prompt_feedback".to_owned(),
            payload: json(
                r#"{"blockReason":null,"safetyRatings":[{"category":"C","probability":"LOW","blocked":false}]}"#
            ),
        }
    );
}

#[test]
fn data_ends_a_run_of_text() {
    for data in [part_image(), part_file()] {
        let events = gemini(vec![
            reply(vec![part_text("before"), data], None),
            reply(vec![part_text("after")], Some("STOP")),
        ]);
        assert_eq!(
            outlines(&events),
            vec![
                ("ResponseStart", 0),
                ("MessageStart", 0),
                ("ContentBlockStart", 0),
                ("TextDelta", 0),
                ("ContentBlockStop", 0),
                ("ContentBlockStart", 1),
                ("TextDelta", 1),
                ("ContentBlockStop", 1),
                ("MessageStop", 0),
                ("ResponseStop", 0),
            ]
        );
    }
}

#[test]
fn gemini_session_opens_one_block_at_a_time() {
    let events = gemini(vec![
        reply(vec![part_text("a"), part_call("f"), part_text("b")], None),
        reply(vec![part_text("c"), part_call("g")], None),
    ]);
    assert_eq!(block_numbers(&events), vec![0, 1, 2, 3]);
    let mut open: Option<u32> = None;
    for event in &events {
        match event {
            StreamEvent::ContentBlockStart { index, .. } => {
                assert_eq!(open, None);
                open = Some(*index);
            }
            StreamEvent::ContentBlockStop { index } => {
                assert_eq!(open, Some(*index));
                open = None;
            }
            _ => {}
        }
    }
    assert_eq!(open, None);
    assert_eq!(stop_reason(&events), StopReason::ToolUse);
}

#[test]
fn array_that_is_cut_off_is_an_error_inside_objects_only() {
    let text = br#" [ {"a":[{"b":"]}"}]} , {"c":1} ] tail {"#;
    let objects = [(3, 21), (24, 31)];
    for n in 0..=text.len() {
        let mut scanner = Scanner::new();
        let frames = scanner.feed(&text[..n]);
        let inside = objects.iter().any(|(start, end)| *start < n && n < *end);
        match scanner.finalize() {
            Some(StreamError::Decode(m)) => assert!(inside && m.contains("ended mid-object"), "{n}"),
            None => assert!(!inside, "{n}"),
            other => panic!("unexpected {other:?}"),
        }
        let complete: Vec<Frame> = objects
            .iter()
            .filter(|(_, end)| *end <= n)
            .map(|(start, end)| Frame::Object(text[*start..*end].to_vec()))
            .collect();
        assert_eq!(frames, complete, "{n}");
    }
}

// ── what is shared ────────────────────────────────────────────────────────

#[test]
fn neighbouring_blocks_alternate_without_a_flush() {
    let mut mix = ReasoningInterleaver::new();
    let mut events = vec![];
    mix.push(DeltaKind::Text, "a", &mut events);
    mix.push(DeltaKind::Text, "b", &mut events);
    mix.push(DeltaKind::Reasoning, "c", &mut events);
    mix.push(DeltaKind::Text, "d", &mut events);
    let kinds: Vec<ContentBlockKind> = events
        .iter()
        .filter_map(|e| match e {
            StreamEvent::ContentBlockStart { kind, .. } => Some(*kind),
            _ => None,
        })
        .collect();
    assert_eq!(
        kinds,
        vec![ContentBlockKind::Text, ContentBlockKind::Reasoning, ContentBlockKind::Text]
    );
}

#[test]
fn pushes_and_a_flush_are_a_row_of_blocks() {
    let mut mix = ReasoningInterleaver::new();
    let mut events = vec![];
    mix.push(DeltaKind::Reasoning, "", &mut events);
    mix.push(DeltaKind::Text, "a", &mut events);
    mix.push(DeltaKind::Reasoning, "", &mut events);
    mix.push(DeltaKind::Text, "b", &mut events);
    mix.push(DeltaKind::Reasoning, "c", &mut events);
    mix.flush(&mut events);
    let row = vec![
        ("ContentBlockStart", 0),
        ("TextDelta", 0),
        ("TextDelta", 0),
        ("ContentBlockStop", 0),
        ("ContentBlockStart", 1),
        ("ReasoningDelta", 1),
        ("ContentBlockStop", 1),
    ];
    assert_eq!(outlines(&events), row);
    mix.flush(&mut events);
    assert_eq!(outlines(&events), row);
}

fn token(name: &str, expires_at_unix: i64) -> CopilotToken {
    CopilotToken {
        token: name.to_owned(),
        api_base: "https://c.example".to_owned(),
        expires_at_unix,
    }
}

#[test]
fn token_is_served_until_it_fades_or_is_forgotten() {
    let mut cache = TokenCache::new();
    assert_eq!(cache.on_get(0), TokenStep::Exchange);
    assert_eq!(cache.on_exchange(Ok(token("one", 1000))), Ok(token("one", 1000)));
    assert_eq!(cache.on_get(100), TokenStep::Serve(token("one", 1000)));
    assert_eq!(cache.on_get(939), TokenStep::Serve(token("one", 1000)));
    assert_eq!(cache.on_get(940), TokenStep::Exchange);
    // Asked earlier, it would still have been good.
    assert_eq!(cache.on_get(100), TokenStep::Serve(token("one", 1000)));
    cache.invalidate();
    assert_eq!(cache.on_get(100), TokenStep::Exchange);
    cache.on_exchange(Ok(token("two", 1000))).unwrap();
    cache
        .on_exchange(Err(ProviderError::Network("down".to_owned())))
        .unwrap_err();
    assert_eq!(cache.on_get(100), TokenStep::Exchange);
}

#[test]
fn getting_a_token_takes_at_most_one_exchange() {
    let creds = || StoredCredentials {
        github_oauth_token: "gho".to_owned(),
        created_at_unix: 3,
    };
    let mut cache = TokenCache::new();
    assert_eq!(cache.on_event(TokenEvent::Asked { now: 0 }), TokenAction::Load);
    assert_eq!(
        cache.on_event(TokenEvent::Loaded(Ok(creds()))),
        TokenAction::Exchange(creds())
    );
    assert_eq!(
        cache.on_event(TokenEvent::Exchanged(Ok(token("one", 1000)))),
        TokenAction::Reply(Ok(token("one", 1000)))
    );
    assert_eq!(
        cache.on_event(TokenEvent::Asked { now: 939 }),
        TokenAction::Reply(Ok(token("one", 1000)))
    );
    assert_eq!(cache.on_event(TokenEvent::Asked { now: 940 }), TokenAction::Load);
    let missing = ProviderError::Encode("read credentials: gone".to_owned());
    match cache.on_event(TokenEvent::Loaded(Err(missing))) {
        TokenAction::Reply(Err(ProviderError::Network(text))) => {
            assert!(text.starts_with("load credentials: "));
            assert!(text.contains("read credentials: gone"));
        }
        other => panic!("expected an error, got {other:?}"),
    }
    // What was kept stays where no credentials were found.
    assert_eq!(
        cache.on_event(TokenEvent::Asked { now: 0 }),
        TokenAction::Reply(Ok(token("one", 1000)))
    );
    let down = || ProviderError::Network("down".to_owned());
    assert_eq!(
        cache.on_event(TokenEvent::Exchanged(Err(down()))),
        TokenAction::Reply(Err(down()))
    );
    assert_eq!(cache.on_event(TokenEvent::Asked { now: 0 }), TokenAction::Load);
}
