//! Requests to the Messages API.
use agent_shim_providers::anthropic::request::build;
use agent_shim_providers::canonical::{
    BackendTarget, BinarySource, CanonicalRequest, ContentBlock, ExtensionMap, FrontendInfo,
    FrontendKind, FrontendModel, GenerationOptions, ImageBlock, Message, MessageRole,
    ReasoningBlock, ReasoningEffort, ReasoningOptions, RequestId, RequestMetadata, ResolvedPolicy,
    RoutePolicy, SystemInstruction, SystemSource, TextBlock, ToolCallArguments, ToolCallBlock,
    ToolCallId, ToolChoice, ToolDefinition, ToolResultBlock,
};
use agent_shim_providers::json::Json;

fn json(text: &str) -> Json {
    Json::parse(text).unwrap()
}

fn value(text: &str) -> serde_json::Value {
    serde_json::from_str(text).unwrap()
}

fn empty_request(stream: bool) -> CanonicalRequest {
    CanonicalRequest {
        id: RequestId("req".to_owned()),
        frontend: FrontendInfo {
            kind: FrontendKind::OpenAiChat,
            requested_model: FrontendModel("gpt-4o".to_owned()),
        },
        model: FrontendModel("gpt-4o".to_owned()),
        system: vec![],
        messages: vec![],
        tools: vec![],
        tool_choice: ToolChoice::Auto,
        generation: GenerationOptions::default(),
        response_format: None,
        stream,
        metadata: RequestMetadata::default(),
        inbound_anthropic_headers: vec![],
        resolved_policy: ResolvedPolicy::default(),
        extensions: ExtensionMap::new(),
    }
}

fn target() -> BackendTarget {
    BackendTarget {
        provider: "anthropic".to_owned(),
        model: "3-5-sonnet-20241022".to_owned(),
        policy: RoutePolicy::default(),
    }
}

#[test]
fn text_only_user_message_serializes_correctly() {
    let mut req = empty_request(false);
    req.messages
        .push(Message::user(vec![ContentBlock::text("hello, world")]));
    let body = build(&req, &target()).to_value();
    assert_eq!(body["model"], "3-5-sonnet-20241022");
    assert_eq!(body["max_tokens"], 4096); // default fallback
    assert_eq!(body["stream"], false);
    assert_eq!(body["messages"][0]["role"], "user");
    assert_eq!(body["messages"][0]["content"][0]["type"], "text");
    assert_eq!(body["messages"][0]["content"][0]["text"], "hello, world");
    assert!(body.get("system").is_none());
    assert!(body.get("tools").is_none());
    assert!(body.get("thinking").is_none());
}

#[test]
fn max_tokens_passes_through_when_set() {
    let mut req = empty_request(true);
    req.generation.max_tokens = Some(1024);
    req.messages
        .push(Message::user(vec![ContentBlock::text("x")]));
    let body = build(&req, &target()).to_value();
    assert_eq!(body["max_tokens"], 1024);
    assert_eq!(body["stream"], true);
}

#[test]
fn system_text_string_form() {
    let mut req = empty_request(false);
    req.system.push(SystemInstruction {
        source: SystemSource::AnthropicSystem,
        content: vec![ContentBlock::text("You are helpful.")],
    });
    req.messages
        .push(Message::user(vec![ContentBlock::text("hi")]));
    let body = build(&req, &target()).to_value();
    assert_eq!(body["system"], "You are helpful.");
}

#[test]
fn multi_system_flattens_with_double_newline() {
    let mut req = empty_request(false);
    req.system.push(SystemInstruction {
        source: SystemSource::OpenAiSystem,
        content: vec![ContentBlock::text("Be concise.")],
    });
    req.system.push(SystemInstruction {
        source: SystemSource::OpenAiDeveloper,
        content: vec![ContentBlock::text("Use British English.")],
    });
    req.messages
        .push(Message::user(vec![ContentBlock::text("hi")]));
    let body = build(&req, &target()).to_value();
    assert_eq!(body["system"], "Be concise.\n\nUse British English.");
}

#[test]
fn system_with_cache_control_uses_block_array() {
    let mut req = empty_request(false);
    let mut ext = ExtensionMap::new();
    ext.insert("anthropic.cache_control", json(r#"{"type": "ephemeral"}"#));
    req.system.push(SystemInstruction {
        source: SystemSource::AnthropicSystem,
        content: vec![ContentBlock::Text(TextBlock {
            text: "Cache me".into(),
            extensions: ext,
        })],
    });
    req.messages
        .push(Message::user(vec![ContentBlock::text("hi")]));
    let body = build(&req, &target()).to_value();
    assert!(body["system"].is_array());
    assert_eq!(body["system"][0]["type"], "text");
    assert_eq!(body["system"][0]["text"], "Cache me");
    assert_eq!(body["system"][0]["cache_control"]["type"], "ephemeral");
}

#[test]
fn tool_use_and_tool_result_round_trip() {
    let mut req = empty_request(false);
    req.messages
        .push(Message::user(vec![ContentBlock::text("search please")]));
    req.messages.push(Message {
        role: MessageRole::Assistant,
        content: vec![ContentBlock::ToolCall(ToolCallBlock {
            id: ToolCallId::from_provider("call_1"),
            name: "search".into(),
            arguments: ToolCallArguments::Complete {
                value: json(r#"{"q": "rust"}"#),
            },
            extensions: ExtensionMap::new(),
        })],
        name: None,
        source: None,
        extensions: ExtensionMap::new(),
    });
    req.messages.push(Message {
        role: MessageRole::Tool,
        content: vec![ContentBlock::ToolResult(ToolResultBlock {
            tool_call_id: ToolCallId::from_provider("call_1"),
            content: Json::text("ok"),
            is_error: false,
            extensions: ExtensionMap::new(),
        })],
        name: None,
        source: None,
        extensions: ExtensionMap::new(),
    });
    let body = build(&req, &target()).to_value();

    assert_eq!(body["messages"][1]["role"], "assistant");
    assert_eq!(body["messages"][1]["content"][0]["type"], "tool_use");
    assert_eq!(body["messages"][1]["content"][0]["id"], "call_1");
    assert_eq!(body["messages"][1]["content"][0]["name"], "search");
    assert_eq!(body["messages"][1]["content"][0]["input"]["q"], "rust");

    assert_eq!(body["messages"][2]["role"], "user");
    assert_eq!(body["messages"][2]["content"][0]["type"], "tool_result");
    assert_eq!(body["messages"][2]["content"][0]["tool_use_id"], "call_1");
    assert_eq!(body["messages"][2]["content"][0]["content"], "ok");
}

#[test]
fn tool_definitions_serialize() {
    let mut req = empty_request(false);
    req.messages
        .push(Message::user(vec![ContentBlock::text("hi")]));
    let mut ext = ExtensionMap::new();
    ext.insert("anthropic.cache_control", json(r#"{"type": "ephemeral"}"#));
    req.tools.push(ToolDefinition {
        name: "search".into(),
        description: Some("search the web".into()),
        input_schema: json(r#"{"type": "object"}"#),
        extensions: ext,
    });
    req.tool_choice = ToolChoice::Specific {
        name: "search".into(),
    };
    let body = build(&req, &target()).to_value();
    assert_eq!(body["tools"][0]["name"], "search");
    assert_eq!(body["tools"][0]["description"], "search the web");
    assert_eq!(body["tools"][0]["input_schema"]["type"], "object");
    assert_eq!(body["tools"][0]["cache_control"]["type"], "ephemeral");
    assert_eq!(body["tool_choice"]["type"], "tool");
    assert_eq!(body["tool_choice"]["name"], "search");
}

#[test]
fn tool_choice_required_maps_to_any() {
    let mut req = empty_request(false);
    req.messages
        .push(Message::user(vec![ContentBlock::text("hi")]));
    req.tool_choice = ToolChoice::Required;
    let body = build(&req, &target()).to_value();
    assert_eq!(body["tool_choice"]["type"], "any");
}

#[test]
fn tool_choice_auto_is_omitted() {
    let mut req = empty_request(false);
    req.messages
        .push(Message::user(vec![ContentBlock::text("hi")]));
    req.tool_choice = ToolChoice::Auto;
    let body = build(&req, &target()).to_value();
    assert!(body.get("tool_choice").is_none());
}

#[test]
fn thinking_with_explicit_budget_is_emitted() {
    let mut req = empty_request(false);
    req.messages
        .push(Message::user(vec![ContentBlock::text("hi")]));
    req.generation.reasoning = Some(ReasoningOptions {
        effort: None,
        budget_tokens: Some(4096),
    });
    let body = build(&req, &target()).to_value();
    assert_eq!(body["thinking"]["type"], "enabled");
    assert_eq!(body["thinking"]["budget_tokens"], 4096);
}

#[test]
fn thinking_effort_maps_to_budget() {
    let mut req = empty_request(false);
    req.messages
        .push(Message::user(vec![ContentBlock::text("hi")]));
    req.generation.reasoning = Some(ReasoningOptions {
        effort: Some(ReasoningEffort::High),
        budget_tokens: None,
    });
    let body = build(&req, &target()).to_value();
    assert_eq!(body["thinking"]["budget_tokens"], 8192);
}

#[test]
fn thinking_omitted_when_neither_field_set() {
    let mut req = empty_request(false);
    req.messages
        .push(Message::user(vec![ContentBlock::text("hi")]));
    req.generation.reasoning = Some(ReasoningOptions {
        effort: None,
        budget_tokens: None,
    });
    let body = build(&req, &target()).to_value();
    assert!(body.get("thinking").is_none());
}

#[test]
fn reasoning_block_round_trips_signature_via_extensions() {
    let mut req = empty_request(false);
    let mut ext = ExtensionMap::new();
    ext.insert("anthropic.signature", Json::text("sig-abc"));
    req.messages.push(Message {
        role: MessageRole::Assistant,
        content: vec![ContentBlock::Reasoning(ReasoningBlock {
            text: "thinking out loud".into(),
            extensions: ext,
        })],
        name: None,
        source: None,
        extensions: ExtensionMap::new(),
    });
    let body = build(&req, &target()).to_value();
    assert_eq!(body["messages"][0]["content"][0]["type"], "thinking");
    assert_eq!(
        body["messages"][0]["content"][0]["thinking"],
        "thinking out loud"
    );
    assert_eq!(body["messages"][0]["content"][0]["signature"], "sig-abc");
}

#[test]
fn thinking_block_omits_empty_signature() {
    let mut req = empty_request(false);
    req.messages.push(Message {
        role: MessageRole::Assistant,
        content: vec![ContentBlock::Reasoning(ReasoningBlock {
            text: "thinking out loud".into(),
            extensions: ExtensionMap::new(),
        })],
        name: None,
        source: None,
        extensions: ExtensionMap::new(),
    });
    let body = build(&req, &target()).to_value();
    let block = &body["messages"][0]["content"][0];
    assert_eq!(block["type"], "thinking");
    assert_eq!(block["thinking"], "thinking out loud");
    let obj = block.as_object().expect("thinking block is an object");
    assert!(
        !obj.contains_key("signature"),
        "signature field must be omitted when no extension is present, got: {block:?}"
    );
}

#[test]
fn image_base64_source_serializes() {
    let mut req = empty_request(false);
    req.messages.push(Message {
        role: MessageRole::User,
        content: vec![ContentBlock::Image(ImageBlock {
            source: BinarySource::Base64 {
                media_type: "image/png".into(),
                data: b"\x89PNG".to_vec(),
            },
            extensions: ExtensionMap::new(),
        })],
        name: None,
        source: None,
        extensions: ExtensionMap::new(),
    });
    let body = build(&req, &target()).to_value();
    assert_eq!(body["messages"][0]["content"][0]["type"], "image");
    assert_eq!(
        body["messages"][0]["content"][0]["source"]["type"],
        "base64"
    );
    assert_eq!(
        body["messages"][0]["content"][0]["source"]["media_type"],
        "image/png"
    );
    assert!(body["messages"][0]["content"][0]["source"]["data"].is_string());
}

#[test]
fn image_url_source_serializes() {
    let mut req = empty_request(false);
    req.messages.push(Message {
        role: MessageRole::User,
        content: vec![ContentBlock::Image(ImageBlock {
            source: BinarySource::Url {
                url: "https://example.com/cat.png".into(),
            },
            extensions: ExtensionMap::new(),
        })],
        name: None,
        source: None,
        extensions: ExtensionMap::new(),
    });
    let body = build(&req, &target()).to_value();
    assert_eq!(body["messages"][0]["content"][0]["source"]["type"], "url");
    assert_eq!(
        body["messages"][0]["content"][0]["source"]["url"],
        "https://example.com/cat.png"
    );
}

#[test]
fn cache_control_lifts_to_top_level_field_on_text_block() {
    let mut req = empty_request(false);
    let mut ext = ExtensionMap::new();
    ext.insert("anthropic.cache_control", json(r#"{"type": "ephemeral"}"#));
    req.messages.push(Message {
        role: MessageRole::User,
        content: vec![ContentBlock::Text(TextBlock {
            text: "cached".into(),
            extensions: ext,
        })],
        name: None,
        source: None,
        extensions: ExtensionMap::new(),
    });
    let body = build(&req, &target()).to_value();
    let block = &body["messages"][0]["content"][0];
    assert_eq!(block["type"], "text");
    assert_eq!(block["cache_control"]["type"], "ephemeral");
}

#[test]
fn metadata_user_id_passes_through() {
    let mut req = empty_request(false);
    req.metadata.user_id = Some("user-42".into());
    req.messages
        .push(Message::user(vec![ContentBlock::text("hi")]));
    let body = build(&req, &target()).to_value();
    assert_eq!(body["metadata"]["user_id"], "user-42");
}

#[test]
fn metadata_omitted_when_no_user_id() {
    let mut req = empty_request(false);
    req.messages
        .push(Message::user(vec![ContentBlock::text("hi")]));
    let body = build(&req, &target()).to_value();
    assert!(body.get("metadata").is_none());
}

#[test]
fn streaming_tool_arguments_parsed_to_value() {
    let mut req = empty_request(false);
    req.messages.push(Message {
        role: MessageRole::Assistant,
        content: vec![ContentBlock::ToolCall(ToolCallBlock {
            id: ToolCallId::from_provider("call_1"),
            name: "search".into(),
            arguments: ToolCallArguments::Streaming {
                data: r#"{"q":"rust"}"#.into(),
            },
            extensions: ExtensionMap::new(),
        })],
        name: None,
        source: None,
        extensions: ExtensionMap::new(),
    });
    let body = build(&req, &target()).to_value();
    assert_eq!(body["messages"][0]["content"][0]["input"]["q"], "rust");
}

#[test]
fn streaming_tool_arguments_with_invalid_json_falls_back_to_empty_object() {
    let mut req = empty_request(false);
    req.messages.push(Message {
        role: MessageRole::Assistant,
        content: vec![ContentBlock::ToolCall(ToolCallBlock {
            id: ToolCallId::from_provider("call_1"),
            name: "search".into(),
            arguments: ToolCallArguments::Streaming {
                data: "not-json".into(),
            },
            extensions: ExtensionMap::new(),
        })],
        name: None,
        source: None,
        extensions: ExtensionMap::new(),
    });
    let body = build(&req, &target()).to_value();
    assert!(body["messages"][0]["content"][0]["input"].is_object());
    assert_eq!(body["messages"][0]["content"][0]["input"], value("{}"));
}

fn opus_target() -> BackendTarget {
    BackendTarget {
        provider: "anthropic".to_owned(),
        model: "opus-4-7".to_owned(),
        policy: RoutePolicy::default(),
    }
}

fn req_with_effort_and_beta(effort: ReasoningEffort, has_effort_beta: bool) -> CanonicalRequest {
    let mut req = empty_request(false);
    req.frontend.kind = FrontendKind::AnthropicMessages;
    req.messages = vec![Message::user(vec![ContentBlock::text("hi")])];
    req.resolved_policy.reasoning_effort = Some(effort);
    if has_effort_beta {
        req.resolved_policy.anthropic_headers.push((
            "anthropic-beta".to_owned(),
            "effort-2025-11-24".to_owned(),
        ));
    }
    req
}

#[test]
fn emits_adaptive_and_output_config_when_effort_beta_present() {
    let req = req_with_effort_and_beta(ReasoningEffort::Max, true);
    let body = build(&req, &opus_target()).to_value();
    assert_eq!(body["thinking"]["type"], "adaptive");
    assert!(
        body["thinking"].get("budget_tokens").is_none(),
        "adaptive path must omit budget_tokens, got: {body:#}"
    );
    assert_eq!(body["output_config"]["effort"], "max");
}

#[test]
fn legacy_path_when_effort_beta_absent() {
    let req = req_with_effort_and_beta(ReasoningEffort::Xhigh, false);
    let body = build(&req, &opus_target()).to_value();
    assert_eq!(body["thinking"]["type"], "enabled");
    assert!(body["thinking"]["budget_tokens"].as_u64().is_some());
    assert!(
        body.get("output_config").is_none(),
        "legacy path must NOT emit output_config, got: {body:#}"
    );
}

#[test]
fn minimal_maps_to_low_on_adaptive_path() {
    let req = req_with_effort_and_beta(ReasoningEffort::Minimal, true);
    let body = build(&req, &opus_target()).to_value();
    assert_eq!(
        body["output_config"]["effort"], "low",
        "Anthropic has no `minimal` — Minimal compresses to low"
    );
}
