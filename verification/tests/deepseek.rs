//! DeepSeek requests, replies and token counts.
use agent_shim_providers::canonical::{
    BackendTarget, CanonicalRequest, ContentBlock, ExtensionMap, FrontendInfo, FrontendKind,
    FrontendModel, GenerationOptions, Message, MessageRole, RequestId, RequestMetadata,
    ResolvedPolicy, RoutePolicy, ToolCallId, ToolChoice,
};
use agent_shim_providers::deepseek::request::{build, strip_cache_control};
use agent_shim_providers::deepseek::response::{parse_unary_inner, StreamState};
use agent_shim_providers::deepseek::usage::map_usage;
use agent_shim_providers::deepseek::DeepseekProvider;
use agent_shim_providers::glm::GlmProvider;
use agent_shim_providers::json::Json;
use agent_shim_providers::stream::{
    ContentBlockKind, ResponseId, StopReason, StreamEvent, Usage,
};

fn json(text: &str) -> Json {
    Json::parse(text).unwrap()
}

fn target(model: &str) -> BackendTarget {
    BackendTarget {
        provider: "deepseek".to_owned(),
        model: model.to_owned(),
        policy: RoutePolicy::default(),
    }
}

fn request_with_messages(messages: Vec<Message>) -> CanonicalRequest {
    CanonicalRequest {
        id: RequestId("req".to_owned()),
        frontend: FrontendInfo {
            kind: FrontendKind::OpenAiChat,
            requested_model: FrontendModel("alias".to_owned()),
        },
        model: FrontendModel("alias".to_owned()),
        system: vec![],
        messages,
        tools: vec![],
        tool_choice: ToolChoice::Auto,
        generation: GenerationOptions::default(),
        response_format: None,
        stream: false,
        metadata: RequestMetadata::default(),
        inbound_anthropic_headers: vec![],
        resolved_policy: ResolvedPolicy::default(),
        extensions: ExtensionMap::new(),
    }
}

#[test]
fn strip_cache_control_removes_message_level_field() {
    let mut body = json(r#"{ "messages": [ { "role": "user", "content": "hi", "cache_control": { "type": "ephemeral" } }, { "role": "assistant", "content": "ok" } ] }"#);

    let stripped = strip_cache_control(&mut body);

    assert_eq!(stripped, 1);
    let body = body.to_value();
    assert!(body["messages"][0].get("cache_control").is_none());
    assert!(body["messages"][1].get("cache_control").is_none());
}

#[test]
fn strip_cache_control_removes_block_level_field() {
    let mut body = json(r#"{ "messages": [ { "role": "user", "content": [ { "type": "text", "text": "hi", "cache_control": { "type": "ephemeral" } }, { "type": "text", "text": "world" } ] } ] }"#);

    let stripped = strip_cache_control(&mut body);

    assert_eq!(stripped, 1);
    let body = body.to_value();
    assert!(body["messages"][0]["content"][0]
        .get("cache_control")
        .is_none());
}

#[test]
fn strip_cache_control_returns_total_count_across_levels() {
    let mut body = json(r#"{ "messages": [ { "role": "user", "cache_control": { "type": "ephemeral" }, "content": [ { "type": "text", "text": "hi", "cache_control": { "type": "ephemeral" } } ] }, { "role": "assistant", "cache_control": { "type": "ephemeral" }, "content": "ok" } ] }"#);

    let stripped = strip_cache_control(&mut body);

    assert_eq!(stripped, 3);
}

#[test]
fn strip_cache_control_no_op_when_absent() {
    let mut body = json(r#"{ "messages": [ { "role": "user", "content": "hi" }, { "role": "assistant", "content": [{ "type": "text", "text": "ok" }] } ] }"#);
    let snapshot = body.clone();

    let stripped = strip_cache_control(&mut body);

    assert_eq!(stripped, 0);
    assert_eq!(body, snapshot);
}

#[test]
fn strip_cache_control_handles_missing_messages_array() {
    let mut body = json(r#"{ "model": "deepseek-chat" }"#);
    let stripped = strip_cache_control(&mut body);
    assert_eq!(stripped, 0);
}

#[test]
fn build_produces_clean_body_for_canonical_request_without_cache_control() {
    let req = request_with_messages(vec![Message::user(vec![ContentBlock::text("hi")])]);
    let mut built = build(&req, &target("deepseek-chat"));
    let body = built.to_value();

    assert_eq!(strip_cache_control(&mut built), 0);
    assert_eq!(body["model"], "deepseek-chat");
    assert!(body["messages"].is_array());
}

#[test]
fn map_usage_with_cache_hit_and_miss() {
    let raw = json(r#"{ "prompt_tokens": 100, "completion_tokens": 50, "prompt_cache_hit_tokens": 80, "prompt_cache_miss_tokens": 20, "total_tokens": 150 }"#);

    let usage = map_usage(&raw);

    assert_eq!(usage.input_tokens, Some(20));
    assert_eq!(usage.output_tokens, Some(50));
    assert_eq!(usage.cache_creation_input_tokens, None);
    assert_eq!(usage.cache_read_input_tokens, Some(80));
    assert_eq!(usage.reasoning_tokens, None);
    assert!(!usage.estimated);
    assert_eq!(usage.provider_raw, Some(raw));
}

#[test]
fn map_usage_with_only_prompt_tokens() {
    let raw = json(r#"{ "prompt_tokens": 100, "completion_tokens": 50 }"#);

    let usage = map_usage(&raw);

    assert_eq!(usage.input_tokens, Some(100));
    assert_eq!(usage.output_tokens, Some(50));
    assert_eq!(usage.cache_creation_input_tokens, None);
    assert_eq!(usage.cache_read_input_tokens, None);
    assert_eq!(usage.reasoning_tokens, None);
    assert!(!usage.estimated);
    assert_eq!(usage.provider_raw, Some(raw));
}

#[test]
fn map_usage_with_missing_fields_returns_none() {
    let raw = json(r#"{}"#);

    let usage = map_usage(&raw);

    assert_eq!(usage.input_tokens, None);
    assert_eq!(usage.output_tokens, None);
    assert_eq!(usage.cache_creation_input_tokens, None);
    assert_eq!(usage.cache_read_input_tokens, None);
    assert_eq!(usage.reasoning_tokens, None);
    assert!(!usage.estimated);
    assert_eq!(usage.provider_raw, Some(raw));
}

#[test]
fn map_usage_with_zero_cache_hit_preserves_zero() {
    let raw = json(r#"{ "prompt_tokens": 100, "completion_tokens": 25, "prompt_cache_hit_tokens": 0, "prompt_cache_miss_tokens": 100 }"#);

    let usage = map_usage(&raw);

    assert_eq!(usage.input_tokens, Some(100));
    assert_eq!(usage.output_tokens, Some(25));
    assert_eq!(usage.cache_read_input_tokens, Some(0));
}

#[test]
fn map_usage_preserves_provider_raw_verbatim() {
    let raw = json(r#"{ "prompt_tokens": 1, "completion_tokens": 2, "total_tokens": 3, "experimental_field": "future-deepseek-quirk" }"#);

    let usage = map_usage(&raw);

    assert_eq!(usage.provider_raw, Some(raw));
}

fn run_chunks(chunks: &[String]) -> Vec<StreamEvent> {
    let mut state = StreamState::default();
    let mut all_events = Vec::new();
    for chunk in chunks {
        let evts = state.parse_chunk(chunk).unwrap().unwrap();
        all_events.extend(evts);
    }
    all_events
}

fn run_chunk(chunk: String) -> Vec<StreamEvent> {
    run_chunks(&[chunk])
}

fn base_chunk(delta: &str, finish_reason: &str) -> String {
    let mut chunk = String::new();
    chunk.push_str(r#"{"id":"chatcmpl-1","object":"chat.completion.chunk","created":1700000000,"#);
    chunk.push_str(r#""model":"deepseek-reasoner","choices":[{"index":0,"delta":"#);
    chunk.push_str(delta);
    chunk.push_str(r#","finish_reason":"#);
    chunk.push_str(finish_reason);
    chunk.push_str("}]}");
    chunk
}

#[test]
fn parse_chunk_text_only_emits_text_block() {
    let evts = run_chunk(base_chunk(
        r#"{ "role": "assistant", "content": "Hello" }"#,
        "null",
    ));

    assert_eq!(
        evts,
        vec![
            StreamEvent::ResponseStart {
                id: ResponseId("chatcmpl-1".into()),
                model: "deepseek-reasoner".into(),
                created_at_unix: 1_700_000_000,
            },
            StreamEvent::MessageStart {
                role: MessageRole::Assistant,
            },
            StreamEvent::ContentBlockStart {
                index: 0,
                kind: ContentBlockKind::Text,
            },
            StreamEvent::TextDelta {
                index: 0,
                text: "Hello".into(),
            },
        ]
    );
}

#[test]
fn parse_chunk_reasoning_only_emits_reasoning_block() {
    let evts = run_chunk(base_chunk(
        r#"{ "role": "assistant", "reasoning_content": "Thinking" }"#,
        "null",
    ));

    assert_eq!(
        evts,
        vec![
            StreamEvent::ResponseStart {
                id: ResponseId("chatcmpl-1".into()),
                model: "deepseek-reasoner".into(),
                created_at_unix: 1_700_000_000,
            },
            StreamEvent::MessageStart {
                role: MessageRole::Assistant,
            },
            StreamEvent::ContentBlockStart {
                index: 0,
                kind: ContentBlockKind::Reasoning,
            },
            StreamEvent::ReasoningDelta {
                index: 0,
                text: "Thinking".into(),
            },
        ]
    );
}

#[test]
fn parse_chunk_reasoning_then_text_transitions() {
    let evts = run_chunks(&[
        base_chunk(
            r#"{ "role": "assistant", "reasoning_content": "Hmm" }"#,
            "null",
        ),
        base_chunk(r#"{ "content": "Answer" }"#, "null"),
    ]);

    let tail: Vec<_> = evts
        .iter()
        .filter(|e| {
            !matches!(
                e,
                StreamEvent::ResponseStart { .. } | StreamEvent::MessageStart { .. }
            )
        })
        .cloned()
        .collect();

    assert_eq!(
        tail,
        vec![
            StreamEvent::ContentBlockStart {
                index: 0,
                kind: ContentBlockKind::Reasoning,
            },
            StreamEvent::ReasoningDelta {
                index: 0,
                text: "Hmm".into(),
            },
            StreamEvent::ContentBlockStop { index: 0 },
            StreamEvent::ContentBlockStart {
                index: 1,
                kind: ContentBlockKind::Text,
            },
            StreamEvent::TextDelta {
                index: 1,
                text: "Answer".into(),
            },
        ]
    );
}

#[test]
fn parse_chunk_text_with_tool_call_allocates_after_interleaver() {
    let evts = run_chunk(base_chunk(
        r#"{ "role": "assistant", "content": "Calling...", "tool_calls": [{ "index": 0, "id": "call_1", "function": { "name": "get_weather", "arguments": "{\"city\":" } }] }"#,
        "null",
    ));

    let tail: Vec<_> = evts
        .iter()
        .filter(|e| {
            !matches!(
                e,
                StreamEvent::ResponseStart { .. } | StreamEvent::MessageStart { .. }
            )
        })
        .cloned()
        .collect();

    assert_eq!(
        tail,
        vec![
            StreamEvent::ContentBlockStart {
                index: 0,
                kind: ContentBlockKind::Text,
            },
            StreamEvent::TextDelta {
                index: 0,
                text: "Calling...".into(),
            },
            StreamEvent::ContentBlockStop { index: 0 },
            StreamEvent::ContentBlockStart {
                index: 1,
                kind: ContentBlockKind::ToolCall,
            },
            StreamEvent::ToolCallStart {
                index: 1,
                id: ToolCallId::from_provider("call_1"),
                name: "get_weather".into(),
            },
            StreamEvent::ToolCallArgumentsDelta {
                index: 1,
                json_fragment: "{\"city\":".into(),
            },
        ]
    );
}

#[test]
fn parse_chunk_finish_reason_flushes_and_emits_message_stop() {
    let evts = run_chunks(&[
        base_chunk(
            r#"{ "role": "assistant", "content": "Done." }"#,
            "null",
        ),
        base_chunk(r#"{}"#, r#""stop""#),
    ]);

    assert_eq!(
        &evts[evts.len() - 2..],
        &[
            StreamEvent::ContentBlockStop { index: 0 },
            StreamEvent::MessageStop {
                stop_reason: StopReason::EndTurn,
                stop_sequence: None,
            },
        ]
    );
}

#[test]
fn parse_chunk_finish_reason_with_tool_use_uses_tooluse_stop_reason() {
    let evts = run_chunks(&[
        base_chunk(
            r#"{ "role": "assistant", "tool_calls": [{ "index": 0, "id": "call_1", "function": { "name": "f", "arguments": "" } }] }"#,
            "null",
        ),
        base_chunk(r#"{}"#, r#""tool_calls""#),
    ]);

    assert_eq!(
        &evts[evts.len() - 3..],
        &[
            StreamEvent::ToolCallStop { index: 0 },
            StreamEvent::ContentBlockStop { index: 0 },
            StreamEvent::MessageStop {
                stop_reason: StopReason::ToolUse,
                stop_sequence: None,
            },
        ]
    );
}

#[test]
fn parse_chunk_handles_error_envelope() {
    let mut state = StreamState::default();
    let chunk = r#"{ "error": { "message": "rate limited" } }"#;
    let evts = state.parse_chunk(chunk).unwrap().unwrap();
    assert_eq!(
        evts,
        vec![StreamEvent::Error {
            message: "rate limited".into(),
        }]
    );
}

#[test]
fn parse_chunk_usage_only_chunk_emits_usage_delta() {
    let mut state = StreamState::default();
    let usage_json = r#"{ "prompt_tokens": 10, "completion_tokens": 5 }"#;
    let chunk = r#"{ "id": "chatcmpl-1", "object": "chat.completion.chunk", "created": 1700000000, "model": "deepseek-reasoner", "usage": {"prompt_tokens": 10, "completion_tokens": 5} }"#;
    let evts = state.parse_chunk(chunk).unwrap().unwrap();

    assert_eq!(
        evts,
        vec![
            StreamEvent::ResponseStart {
                id: ResponseId("chatcmpl-1".into()),
                model: "deepseek-reasoner".into(),
                created_at_unix: 1_700_000_000,
            },
            StreamEvent::UsageDelta {
                usage: Usage {
                    input_tokens: Some(10),
                    output_tokens: Some(5),
                    cache_creation_input_tokens: None,
                    cache_read_input_tokens: None,
                    reasoning_tokens: None,
                    estimated: false,
                    provider_raw: Some(json(usage_json)),
                },
            },
        ]
    );
}

#[test]
fn parse_chunk_usage_with_cache_fields_routes_through_map_usage() {
    let mut state = StreamState::default();
    let chunk = r#"{ "id": "chatcmpl-1", "object": "chat.completion.chunk", "created": 1700000000, "model": "deepseek-reasoner", "usage": { "prompt_tokens": 100, "completion_tokens": 50, "prompt_cache_hit_tokens": 80, "prompt_cache_miss_tokens": 20 } }"#;
    let evts = state.parse_chunk(chunk).unwrap().unwrap();

    let usage_event = evts
        .iter()
        .find_map(|e| match e {
            StreamEvent::UsageDelta { usage } => Some(usage.clone()),
            _ => None,
        })
        .expect("usage delta should be present");

    assert_eq!(usage_event.input_tokens, Some(20));
    assert_eq!(usage_event.output_tokens, Some(50));
    assert_eq!(usage_event.cache_read_input_tokens, Some(80));
    assert_eq!(usage_event.cache_creation_input_tokens, None);
    assert!(usage_event.provider_raw.is_some());
}

#[test]
fn parse_chunk_inline_usage_alongside_choices_emits_usage_delta() {
    let mut state = StreamState::default();
    let chunk = r#"{ "id": "chatcmpl-1", "object": "chat.completion.chunk", "created": 1700000000, "model": "deepseek-reasoner", "choices": [{ "index": 0, "delta": { "role": "assistant", "content": "hi" }, "finish_reason": "stop" }], "usage": { "prompt_tokens": 5, "completion_tokens": 1, "prompt_cache_hit_tokens": 4, "prompt_cache_miss_tokens": 1 } }"#;
    let evts = state.parse_chunk(chunk).unwrap().unwrap();

    let usage_event = evts
        .iter()
        .find_map(|e| match e {
            StreamEvent::UsageDelta { usage } => Some(usage.clone()),
            _ => None,
        })
        .expect("usage delta should be present");

    assert_eq!(usage_event.input_tokens, Some(1));
    assert_eq!(usage_event.cache_read_input_tokens, Some(4));
}

#[test]
fn parse_unary_emits_canonical_event_sequence_with_cache_usage() {
    let body = r#"{ "id": "chatcmpl-unary-1", "object": "chat.completion", "created": 1700000000, "model": "deepseek-chat", "choices": [{ "index": 0, "message": { "role": "assistant", "content": "Hi there" }, "finish_reason": "stop" }], "usage": { "prompt_tokens": 100, "completion_tokens": 8, "prompt_cache_hit_tokens": 90, "prompt_cache_miss_tokens": 10 } }"#;

    let events = parse_unary_inner(body.as_bytes()).unwrap().unwrap();

    assert!(matches!(events[0], StreamEvent::ResponseStart { .. }));
    assert!(matches!(events[1], StreamEvent::MessageStart { .. }));

    let stop_usage = events
        .iter()
        .find_map(|e| match e {
            StreamEvent::ResponseStop { usage } => usage.clone(),
            _ => None,
        })
        .expect("ResponseStop should carry usage");

    assert_eq!(stop_usage.input_tokens, Some(10));
    assert_eq!(stop_usage.output_tokens, Some(8));
    assert_eq!(stop_usage.cache_read_input_tokens, Some(90));
    assert_eq!(stop_usage.cache_creation_input_tokens, None);
    assert!(stop_usage.provider_raw.is_some());
}

#[test]
fn parse_unary_without_cache_falls_back_to_prompt_tokens() {
    let body = r#"{ "id": "chatcmpl-unary-2", "object": "chat.completion", "created": 1700000000, "model": "deepseek-chat", "choices": [{ "index": 0, "message": { "role": "assistant", "content": "ok" }, "finish_reason": "stop" }], "usage": { "prompt_tokens": 7, "completion_tokens": 1 } }"#;

    let events = parse_unary_inner(body.as_bytes()).unwrap().unwrap();

    let stop_usage = events
        .iter()
        .find_map(|e| match e {
            StreamEvent::ResponseStop { usage } => usage.clone(),
            _ => None,
        })
        .expect("ResponseStop should carry usage");

    assert_eq!(stop_usage.input_tokens, Some(7));
    assert_eq!(stop_usage.cache_read_input_tokens, None);
}

#[test]
fn deepseek_provider_constructs_with_capabilities() {
    let provider =
        DeepseekProvider::new("deepseek", "https://api.deepseek.com/v1", "test-key", &vec![], 30)
            .expect("provider should construct");

    assert_eq!(provider.name(), "deepseek");

    let caps = provider.capabilities();
    assert!(caps.streaming, "streaming must be enabled");
    assert!(caps.tool_use, "tool_use must be enabled");
    assert!(!caps.vision, "vision must be disabled");
    assert!(caps.json_mode, "json_mode must be enabled");
}

#[test]
fn mod_chat_url_joins_base_and_path() {
    let provider =
        DeepseekProvider::new("deepseek", "https://api.deepseek.com/v1", "test-key", &vec![], 30)
            .unwrap();
    assert_eq!(provider.chat_url(), "https://api.deepseek.com/v1/chat/completions");

    let provider =
        GlmProvider::new("glm", "https://open.bigmodel.cn/api/paas/v4", "test-key", &vec![], 30)
            .unwrap();
    assert_eq!(
        provider.chat_url(),
        "https://open.bigmodel.cn/api/paas/v4/chat/completions"
    );
}

#[test]
fn mod_chat_url_trims_trailing_slash_from_base() {
    let provider =
        DeepseekProvider::new("deepseek", "https://api.deepseek.com/v1/", "test-key", &vec![], 30)
            .unwrap();
    assert_eq!(provider.chat_url(), "https://api.deepseek.com/v1/chat/completions");

    let provider =
        GlmProvider::new("glm", "https://open.bigmodel.cn/api/paas/v4/", "test-key", &vec![], 30)
            .unwrap();
    assert_eq!(
        provider.chat_url(),
        "https://open.bigmodel.cn/api/paas/v4/chat/completions"
    );
}

#[test]
fn mod_models_url_joins_base_and_path() {
    let provider =
        DeepseekProvider::new("deepseek", "https://api.deepseek.com/v1", "test-key", &vec![], 30)
            .unwrap();
    assert_eq!(provider.models_url(), "https://api.deepseek.com/v1/models");

    let provider =
        GlmProvider::new("glm", "https://open.bigmodel.cn/api/paas/v4", "test-key", &vec![], 30)
            .unwrap();
    assert_eq!(provider.models_url(), "https://open.bigmodel.cn/api/paas/v4/models");
}

#[test]
fn glm_provider_constructs_with_capabilities() {
    let provider =
        GlmProvider::new("glm", "https://open.bigmodel.cn/api/paas/v4", "test-key", &vec![], 30)
            .expect("provider should construct");

    assert_eq!(provider.name(), "glm");
    let caps = provider.capabilities();
    assert!(caps.streaming);
    assert!(caps.tool_use);
    assert!(caps.vision);
    assert!(caps.json_mode);
    assert!(!caps.accepts_xhigh);
}
