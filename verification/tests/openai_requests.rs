//! Requests in OpenAI's chat and Responses formats.
use agent_shim_providers::canonical::{
    BackendTarget, BinarySource, CanonicalRequest, ContentBlock, ExtensionMap, FrontendInfo,
    FrontendKind, FrontendModel, GenerationOptions, ImageBlock, Message, MessageRole,
    ReasoningEffort, ReasoningOptions, RequestId, RequestMetadata, ResolvedPolicy, ResponseFormat,
    RoutePolicy, SystemInstruction, SystemSource, TextBlock, ToolCallArguments, ToolCallBlock,
    ToolCallId, ToolChoice, ToolDefinition, ToolResultBlock,
};
use agent_shim_providers::json::Json;
use agent_shim_providers::oai_chat_wire::canonical_to_chat;
use agent_shim_providers::openai_compatible::encode_request;
use agent_shim_providers::openai_compatible::responses_api;
use serde_json::Value;

fn json(text: &str) -> Json {
    Json::parse(text).unwrap()
}

fn target(model: &str) -> BackendTarget {
    BackendTarget {
        provider: "test".to_owned(),
        model: model.to_owned(),
        policy: RoutePolicy::default(),
    }
}

fn request_with_messages(messages: Vec<Message>) -> CanonicalRequest {
    CanonicalRequest {
        id: RequestId("req".to_owned()),
        frontend: FrontendInfo {
            kind: FrontendKind::AnthropicMessages,
            requested_model: FrontendModel("alias".to_owned()),
        },
        model: FrontendModel("alias".to_owned()),
        system: vec![],
        messages,
        tools: vec![],
        tool_choice: ToolChoice::Auto,
        generation: GenerationOptions::default(),
        response_format: None,
        stream: false,
        metadata: RequestMetadata::default(),
        inbound_anthropic_headers: vec![],
        resolved_policy: ResolvedPolicy::default(),
        extensions: ExtensionMap::new(),
    }
}

fn chat(req: &CanonicalRequest, model: &str, accepts_xhigh: bool) -> Value {
    canonical_to_chat::build(req, &target(model), accepts_xhigh).to_value()
}

fn encoded(req: &CanonicalRequest, model: &str) -> Value {
    encode_request::build(req, &target(model)).to_value()
}

#[test]
fn canonical_to_chat_mixed_text_and_tool_result_preserves_user_text() {
    let req = request_with_messages(vec![Message::user(vec![
        ContentBlock::text("The tool returned this:"),
        ContentBlock::ToolResult(ToolResultBlock {
            tool_call_id: ToolCallId::from_provider("call_1"),
            content: Json::text("weather"),
            is_error: false,
            extensions: ExtensionMap::new(),
        }),
    ])]);

    let body = chat(&req, "gpt-test", false);

    assert_eq!(body["messages"].as_array().unwrap().len(), 2);
    assert_eq!(body["messages"][0]["role"], "tool");
    assert_eq!(body["messages"][0]["tool_call_id"],
        "call_1");
    assert_eq!(body["messages"][0]["content"], "weather");
    assert_eq!(body["messages"][1]["role"], "user");
    assert_eq!(
        body["messages"][1]["content"],
        "The tool returned this:"
    );
}

#[test]
fn canonical_to_chat_tool_result_immediately_follows_tool_use_message() {

    let req = request_with_messages(vec![
        Message {
            role: MessageRole::Assistant,
            content: vec![ContentBlock::ToolCall(ToolCallBlock {
                id: ToolCallId::from_provider("toolu_vrtx_01"),
                name: "search".into(),
                arguments: ToolCallArguments::Complete {
                    value: json(r#"{"q": "rust"}"#),
                },
                extensions: ExtensionMap::new(),
            })],
            name: None,
            source: None,
            extensions: ExtensionMap::new(),
        },
        Message::user(vec![
            ContentBlock::text("here is your result"),
            ContentBlock::ToolResult(ToolResultBlock {
                tool_call_id: ToolCallId::from_provider("toolu_vrtx_01"),
                content: Json::text("hello"),
                is_error: false,
                extensions: ExtensionMap::new(),
            }),
        ]),
    ]);

    let body = chat(&req, "gpt-test", false);

    assert_eq!(body["messages"].as_array().unwrap().len(), 3, "got: {:#?}", body["messages"]);
    assert_eq!(body["messages"][0]["role"], "assistant");
    assert!(body["messages"][0]["tool_calls"].is_array());
    assert_eq!(body["messages"][1]["role"], "tool");
    assert_eq!(
        body["messages"][1]["tool_call_id"],
        "toolu_vrtx_01"
    );
    assert_eq!(body["messages"][2]["role"], "user");
}



#[test]
fn image_url_part_emitted_for_url_source() {
    let req = request_with_messages(vec![Message::user(vec![
        ContentBlock::Text(TextBlock {
            text: "describe".into(),
            extensions: ExtensionMap::new(),
        }),
        ContentBlock::Image(ImageBlock {
            source: BinarySource::Url {
                url: "https://example.com/cat.png".into(),
            },
            extensions: ExtensionMap::new(),
        }),
    ])]);
    let body = chat(&req, "gpt-4o", false);
    let content = &body["messages"][0]["content"];
    let parts = content.as_array().expect("multipart user content");
    assert_eq!(parts[0]["type"], "text");
    assert_eq!(parts[1]["type"], "image_url");
    assert_eq!(parts[1]["image_url"]["url"], "https://example.com/cat.png");
}

#[test]
fn image_url_part_emits_data_uri_for_base64_source() {
    let req =
        request_with_messages(vec![Message::user(vec![ContentBlock::Image(ImageBlock {
            source: BinarySource::Base64 {
                media_type: "image/png".into(),
                data: b"\x89PNG\r\n".to_vec(),
            },
            extensions: ExtensionMap::new(),
        })])]);
    let body = chat(&req, "gpt-4o", false);
    let parts = body["messages"][0]["content"].as_array().unwrap();
    assert_eq!(parts[0]["type"], "image_url");
    let url = parts[0]["image_url"]["url"].as_str().unwrap();
    assert!(url.starts_with("data:image/png;base64,"), "got url: {url}");
    assert!(url.ends_with("iVBORw0K"));
}

#[test]
fn image_bytes_source_encodes_as_base64_data_uri() {
    let req =
        request_with_messages(vec![Message::user(vec![ContentBlock::Image(ImageBlock {
            source: BinarySource::Bytes {
                media_type: "image/jpeg".into(),
                data: b"\xff\xd8\xff".to_vec(),
            },
            extensions: ExtensionMap::new(),
        })])]);
    let body = chat(&req, "gpt-4o", false);
    let parts = body["messages"][0]["content"].as_array().unwrap();
    let url = parts[0]["image_url"]["url"].as_str().unwrap();
    assert!(url.starts_with("data:image/jpeg;base64,"), "got url: {url}");
}

#[test]
fn image_provider_file_id_source_drops_with_warning() {
    let req = request_with_messages(vec![Message::user(vec![
        ContentBlock::Image(ImageBlock {
            source: BinarySource::ProviderFileId {
                file_id: "file-abc".into(),
            },
            extensions: ExtensionMap::new(),
        }),
        ContentBlock::Text(TextBlock {
            text: "still here".into(),
            extensions: ExtensionMap::new(),
        }),
    ])]);
    let body = chat(&req, "gpt-4o", false);
    let parts = body["messages"][0]["content"].as_array().unwrap();
    assert_eq!(parts.len(), 1);
    assert_eq!(parts[0]["type"], "text");
}


fn req_with_effort(effort: ReasoningEffort) -> CanonicalRequest {
    let mut req = request_with_messages(vec![Message::user(vec![ContentBlock::text("hi")])]);
    req.resolved_policy.reasoning_effort = Some(effort);
    req
}

#[test]
fn xhigh_serialises_as_xhigh_when_target_accepts() {
    let body = chat(&req_with_effort(ReasoningEffort::Xhigh), "m", true);
    assert_eq!(body["reasoning_effort"], "xhigh");
}

#[test]
fn xhigh_compresses_to_high_when_target_rejects() {
    let body = chat(&req_with_effort(ReasoningEffort::Xhigh), "m", false);
    assert_eq!(body["reasoning_effort"], "high");
}

#[test]
fn max_compresses_to_high_on_pure_openai() {
    let body = chat(&req_with_effort(ReasoningEffort::Max), "m", false);
    assert_eq!(body["reasoning_effort"], "high");
}

#[test]
fn max_serialises_as_xhigh_when_copilot() {
    let body = chat(&req_with_effort(ReasoningEffort::Max), "m", true);
    assert_eq!(body["reasoning_effort"], "xhigh");
}

#[test]
fn low_medium_high_pass_through_identically() {
    for (eff, want) in [
        (ReasoningEffort::Minimal, "minimal"),
        (ReasoningEffort::Low, "low"),
        (ReasoningEffort::Medium, "medium"),
        (ReasoningEffort::High, "high"),
    ] {
        let body_off = chat(&req_with_effort(eff), "m", false);
        let body_on = chat(&req_with_effort(eff), "m", true);
        assert_eq!(body_off["reasoning_effort"], want);
        assert_eq!(body_on["reasoning_effort"], want);
    }
}

#[test]
fn encode_request_mixed_text_and_tool_result_preserves_user_text() {
    let req = request_with_messages(vec![Message::user(vec![
        ContentBlock::text("The tool returned this:"),
        ContentBlock::ToolResult(ToolResultBlock {
            tool_call_id: ToolCallId::from_provider("call_1"),
            content: Json::text("weather"),
            is_error: false,
            extensions: ExtensionMap::new(),
        }),
    ])]);

    let body = encoded(&req, "gpt-test");

    assert_eq!(body["messages"].as_array().unwrap().len(), 2);
    assert_eq!(body["messages"][0]["role"], "tool");
    assert_eq!(body["messages"][0]["tool_call_id"],
        "call_1");
    assert_eq!(body["messages"][0]["content"], "weather");
    assert_eq!(body["messages"][1]["role"], "user");
    assert_eq!(
        body["messages"][1]["content"],
        "The tool returned this:"
    );
}

#[test]
fn encode_request_tool_result_immediately_follows_tool_use_message() {

    let req = request_with_messages(vec![
        Message {
            role: MessageRole::Assistant,
            content: vec![ContentBlock::ToolCall(ToolCallBlock {
                id: ToolCallId::from_provider("toolu_vrtx_01"),
                name: "search".into(),
                arguments: ToolCallArguments::Complete {
                    value: json(r#"{"q": "rust"}"#),
                },
                extensions: ExtensionMap::new(),
            })],
            name: None,
            source: None,
            extensions: ExtensionMap::new(),
        },
        Message::user(vec![
            ContentBlock::text("here is your result"),
            ContentBlock::ToolResult(ToolResultBlock {
                tool_call_id: ToolCallId::from_provider("toolu_vrtx_01"),
                content: Json::text("hello"),
                is_error: false,
                extensions: ExtensionMap::new(),
            }),
        ]),
    ]);

    let body = encoded(&req, "gpt-test");

    assert_eq!(body["messages"].as_array().unwrap().len(), 3, "got: {:#?}", body["messages"]);
    assert_eq!(body["messages"][0]["role"], "assistant");
    assert!(body["messages"][0]["tool_calls"].is_array());
    assert_eq!(body["messages"][1]["role"], "tool");
    assert_eq!(
        body["messages"][1]["tool_call_id"],
        "toolu_vrtx_01"
    );
    assert_eq!(body["messages"][2]["role"], "user");
}

fn responses(req: &CanonicalRequest) -> Value {
    responses_api::encode_request::build(req, &target("gpt-5")).to_value()
}

fn empty_request() -> CanonicalRequest {
    let mut req = request_with_messages(vec![Message::user(vec![ContentBlock::text("hi")])]);
    req.frontend.kind = FrontendKind::OpenAiResponses;
    req
}

#[test]
fn responses_xhigh_compresses_to_high() {
    let mut req = empty_request();
    req.resolved_policy.reasoning_effort = Some(ReasoningEffort::Xhigh);
    let body = responses(&req);
    assert_eq!(body["reasoning"]["effort"], "high");
}

#[test]
fn responses_max_compresses_to_high() {
    let mut req = empty_request();
    req.resolved_policy.reasoning_effort = Some(ReasoningEffort::Max);
    let body = responses(&req);
    assert_eq!(body["reasoning"]["effort"], "high");
}

#[test]
fn responses_low_medium_high_pass_through() {
    for (eff, want) in [
        (ReasoningEffort::Minimal, "minimal"),
        (ReasoningEffort::Low, "low"),
        (ReasoningEffort::Medium, "medium"),
        (ReasoningEffort::High, "high"),
    ] {
        let mut req = empty_request();
        req.resolved_policy.reasoning_effort = Some(eff);
        let body = responses(&req);
        assert_eq!(body["reasoning"]["effort"], want);
    }
}

#[test]
fn responses_no_effort_means_no_reasoning_field() {
    let body = responses(&empty_request());
    assert!(body.get("reasoning").is_none());
}


fn req_with_catalog(effort: ReasoningEffort, advertised: &[&str]) -> CanonicalRequest {
    let mut req = empty_request();
    req.resolved_policy.reasoning_effort = Some(effort);
    req.resolved_policy.supported_efforts =
        Some(advertised.iter().map(|s| s.to_string()).collect());
    req
}

#[test]
fn responses_max_passes_through_when_model_advertises_max() {
    let req = req_with_catalog(
        ReasoningEffort::Max,
        &["low", "medium", "high", "xhigh", "max"],
    );
    let body = responses(&req);
    assert_eq!(body["reasoning"]["effort"], "max");
}

#[test]
fn responses_xhigh_steps_down_when_model_lacks_xhigh() {
    let req = req_with_catalog(ReasoningEffort::Xhigh, &["low", "medium", "high", "max"]);
    let body = responses(&req);
    assert_eq!(body["reasoning"]["effort"], "high");
}

#[test]
fn responses_max_clamps_to_xhigh_when_model_lacks_max() {
    let req = req_with_catalog(
        ReasoningEffort::Max,
        &["none", "low", "medium", "high", "xhigh"],
    );
    let body = responses(&req);
    assert_eq!(body["reasoning"]["effort"], "xhigh");
}

#[test]
fn responses_absent_catalog_falls_back_to_compression() {
    let mut req = empty_request();
    req.resolved_policy.reasoning_effort = Some(ReasoningEffort::Max);
    let body = responses(&req);
    assert_eq!(body["reasoning"]["effort"], "high");
}


#[test]
fn responses_mid_conv_system_collapses_to_instructions() {
    let mut req = empty_request();
    req.messages = vec![
        Message::user(vec![ContentBlock::text("a")]),
        Message::system(SystemSource::OpenAiSystem, vec![ContentBlock::text("mid hint")]),
        Message::user(vec![ContentBlock::text("b")]),
    ];
    let body = responses(&req);
    assert_eq!(body["instructions"], "mid hint");
    let input = body["input"].as_array().unwrap();
    for item in input {
        let role = item.get("role").and_then(|v| v.as_str()).unwrap_or("");
        assert!(role != "system" && role != "developer", "input contained system: {item}");
    }
}

#[test]
fn responses_top_level_and_mid_conv_systems_concatenate_in_order() {
    let mut req = empty_request();
    req.system.push(SystemInstruction {
        source: SystemSource::OpenAiSystem,
        content: vec![ContentBlock::text("standing")],
    });
    req.messages = vec![
        Message::user(vec![ContentBlock::text("a")]),
        Message::system(SystemSource::OpenAiSystem, vec![ContentBlock::text("mid hint")]),
        Message::user(vec![ContentBlock::text("b")]),
    ];
    let body = responses(&req);
    assert_eq!(body["instructions"], "standing\nmid hint");
}

#[test]
fn responses_empty_system_message_text_skipped_in_collapse() {
    let mut req = empty_request();
    req.messages = vec![
        Message::user(vec![ContentBlock::text("a")]),
        Message::system(SystemSource::OpenAiSystem, vec![]),
    ];
    let body = responses(&req);
    assert!(body.get("instructions").is_none() || body["instructions"] == "");
}

#[test]
fn build_json_gives_the_same_body() {
    let req = request_with_messages(vec![Message::user(vec![ContentBlock::text("hi")])]);
    assert_eq!(
        canonical_to_chat::build_json(&req, &target("m"), false).to_string(),
        r#"{"model":"m","messages":[{"role":"user","content":"hi"}],"stream":false}"#
    );
}

#[test]
fn every_chat_option_has_its_place() {
    let mut req = request_with_messages(vec![Message::user(vec![ContentBlock::text("hi")])]);
    req.system.push(SystemInstruction {
        source: SystemSource::OpenAiDeveloper,
        content: vec![ContentBlock::text("be brief")],
    });
    req.stream = true;
    req.generation = GenerationOptions {
        max_tokens: Some(9),
        temperature: Some(json("0.5")),
        top_p: Some(json("0.25")),
        top_k: Some(3),
        presence_penalty: Some(json("0.1")),
        frequency_penalty: Some(json("0.2")),
        stop_sequences: vec!["END".to_owned()],
        seed: Some(7),
        reasoning: None,
    };
    req.response_format = Some(ResponseFormat::JsonObject);
    req.tools.push(ToolDefinition {
        name: "f".to_owned(),
        description: None,
        input_schema: json(r#"{"type":"object"}"#),
        extensions: ExtensionMap::new(),
    });
    req.tool_choice = ToolChoice::Off;
    let body = chat(&req, "m", false);
    assert_eq!(body["max_tokens"], 9);
    assert_eq!(body["temperature"], 0.5);
    assert_eq!(body["top_p"], 0.25);
    assert_eq!(body["presence_penalty"], 0.1);
    assert_eq!(body["frequency_penalty"], 0.2);
    assert_eq!(body["stop"][0], "END");
    assert_eq!(body["seed"], 7);
    assert_eq!(body["response_format"]["type"], "json_object");
    assert_eq!(body["tools"][0]["function"]["name"], "f");
    assert_eq!(body["tool_choice"], "none");
    assert_eq!(body["stream"], true);
    assert_eq!(body["stream_options"]["include_usage"], true);
    assert_eq!(body["messages"][1]["role"], "user");
    assert!(body.get("reasoning_effort").is_none());
}

#[test]
fn requested_effort_wins_over_the_route() {
    let mut req = request_with_messages(vec![]);
    let mut to = target("m");
    assert_eq!(encode_request::resolve_reasoning_effort(&req, &to), None);
    to.policy.default_reasoning_effort = Some(ReasoningEffort::Low);
    assert_eq!(
        encode_request::resolve_reasoning_effort(&req, &to),
        Some(ReasoningEffort::Low)
    );
    req.generation.reasoning = Some(ReasoningOptions {
        effort: Some(ReasoningEffort::High),
        budget_tokens: None,
    });
    assert_eq!(
        encode_request::resolve_reasoning_effort(&req, &to),
        Some(ReasoningEffort::High)
    );
    let body = encode_request::build(&req, &to).to_value();
    assert_eq!(body["reasoning_effort"], "high");
}

#[test]
fn tool_result_text_is_taken_from_blocks() {
    let text = |s: &str| canonical_to_chat::extract_text_from_tool_result(&json(s));
    assert_eq!(text(r#""plain""#), "plain");
    assert_eq!(text(r#"{"a":1}"#), r#"{"a":1}"#);
    assert_eq!(text(r#"[{"type":"text","text":"a"},{"type":"text","text":"b"}]"#), "a\nb");
}

#[test]
fn clamped_effort_is_never_above_the_asked_one() {
    let advertised: Vec<String> = vec!["low".to_owned(), "max".to_owned()];
    assert_eq!(
        ReasoningEffort::High.clamp_to_advertised(&advertised),
        Some("low")
    );
    assert_eq!(
        ReasoningEffort::Max.clamp_to_advertised(&advertised),
        Some("max")
    );
    assert_eq!(ReasoningEffort::Minimal.clamp_to_advertised(&advertised), None);
}
