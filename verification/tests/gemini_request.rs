//! Requests to the Generate Content API.
use agent_shim_providers::canonical::{
    BackendTarget, BinarySource, CanonicalRequest, ContentBlock, ExtensionMap, FrontendInfo,
    FrontendKind, FrontendModel, GenerationOptions, ImageBlock, Message, MessageRole,
    ReasoningBlock, ReasoningEffort, ReasoningOptions, RedactedReasoningBlock, RequestId,
    RequestMetadata, ResolvedPolicy, ResponseFormat, RoutePolicy, SystemInstruction, SystemSource,
    ToolCallArguments, ToolCallBlock, ToolCallId, ToolChoice, ToolDefinition, ToolResultBlock,
    UnsupportedBlock,
};
use agent_shim_providers::gemini::request::{build, effort_to_budget};
use agent_shim_providers::gemini::wire::{
    FunctionCall, GenerationConfig, InlineData, Part, ThinkingConfig,
};
use agent_shim_providers::gemini::GeminiProvider;
use agent_shim_providers::json::Json;

fn json(text: &str) -> Json {
    Json::parse(text).unwrap()
}

fn target() -> BackendTarget {
    BackendTarget {
        provider: "gemini".to_owned(),
        model: "gemini-2.0-flash".to_owned(),
        policy: RoutePolicy::default(),
    }
}

fn empty_request() -> CanonicalRequest {
    CanonicalRequest {
        id: RequestId("req".to_owned()),
        frontend: FrontendInfo {
            kind: FrontendKind::AnthropicMessages,
            requested_model: FrontendModel("test".to_owned()),
        },
        model: FrontendModel("test".to_owned()),
        system: vec![],
        messages: vec![],
        tools: vec![],
        tool_choice: ToolChoice::Auto,
        generation: GenerationOptions::default(),
        response_format: None,
        stream: false,
        metadata: RequestMetadata::default(),
        inbound_anthropic_headers: vec![],
        resolved_policy: ResolvedPolicy::default(),
        extensions: ExtensionMap::new(),
    }
}

#[test]
fn empty_request_produces_empty_contents_and_no_optional_fields() {
    let body = build(&empty_request(), &target());
    assert!(body.contents.is_empty());
    assert!(body.system_instruction.is_none());
    assert!(body.tools.is_none());
    assert!(body.generation_config.is_none());
    assert!(body.safety_settings.is_none());
}

#[test]
fn user_text_message_round_trips_to_user_role_with_text_part() {
    let mut req = empty_request();
    req.messages
        .push(Message::user(vec![ContentBlock::text("hello")]));

    let body = build(&req, &target());
    assert_eq!(body.contents.len(), 1);
    assert_eq!(body.contents[0].role, "user");
    assert_eq!(body.contents[0].parts.len(), 1);
    assert_eq!(body.contents[0].parts[0].text.as_deref(), Some("hello"));
}

#[test]
fn assistant_role_maps_to_model() {
    let mut req = empty_request();
    req.messages
        .push(Message::assistant(vec![ContentBlock::text("hi back")]));

    let body = build(&req, &target());
    assert_eq!(body.contents[0].role, "model");
    assert_eq!(body.contents[0].parts[0].text.as_deref(), Some("hi back"));
}

#[test]
fn tool_role_maps_to_function() {
    let mut req = empty_request();
    req.messages.push(Message {
        role: MessageRole::Tool,
        content: vec![ContentBlock::ToolResult(ToolResultBlock {
            tool_call_id: ToolCallId::from_provider("call_abc"),
            content: json(r#"{"ok": true}"#),
            is_error: false,
            extensions: ExtensionMap::new(),
        })],
        name: None,
        source: None,
        extensions: ExtensionMap::new(),
    });

    let body = build(&req, &target());
    assert_eq!(body.contents[0].role, "function");
    let resp = body.contents[0].parts[0]
        .function_response
        .as_ref()
        .expect("functionResponse part");
    assert_eq!(resp.name, "call_abc"); // fallback to id
    assert_eq!(resp.response, json(r#"{"ok": true}"#));
}

#[test]
fn empty_message_is_skipped_to_avoid_upstream_400() {
    let mut req = empty_request();
    req.messages
        .push(Message::user(vec![ContentBlock::RedactedReasoning(
            RedactedReasoningBlock {
                data: "redacted".into(),
                extensions: ExtensionMap::new(),
            },
        )]));

    let body = build(&req, &target());
    assert!(body.contents.is_empty());
}


#[test]
fn reasoning_block_emits_part_with_thought_true() {
    let mut req = empty_request();
    req.messages.push(Message::assistant(vec![
        ContentBlock::Reasoning(ReasoningBlock {
            text: "thinking out loud".into(),
            extensions: ExtensionMap::new(),
        }),
        ContentBlock::text("the answer is 42"),
    ]));

    let body = build(&req, &target());
    assert_eq!(body.contents[0].parts.len(), 2);
    assert_eq!(
        body.contents[0].parts[0].text.as_deref(),
        Some("thinking out loud")
    );
    assert_eq!(body.contents[0].parts[0].thought, Some(true));
    assert_eq!(
        body.contents[0].parts[1].text.as_deref(),
        Some("the answer is 42")
    );
    assert!(body.contents[0].parts[1].thought.is_none());
}


#[test]
fn base64_image_emits_inline_data_part() {
    let mut req = empty_request();
    req.messages
        .push(Message::user(vec![ContentBlock::Image(ImageBlock {
            source: BinarySource::Base64 {
                media_type: "image/png".into(),
                data: b"\x89PNG\r\n".to_vec(),
            },
            extensions: ExtensionMap::new(),
        })]));

    let body = build(&req, &target());
    let part = &body.contents[0].parts[0];
    let inline = part.inline_data.as_ref().expect("inline_data present");
    assert_eq!(inline.mime_type, "image/png");
    assert_eq!(inline.data, "iVBORw0K");
}

#[test]
fn url_image_emits_file_data_part() {
    let mut req = empty_request();
    req.messages
        .push(Message::user(vec![ContentBlock::Image(ImageBlock {
            source: BinarySource::Url {
                url: "https://example.com/cat.png".into(),
            },
            extensions: ExtensionMap::new(),
        })]));

    let body = build(&req, &target());
    let part = &body.contents[0].parts[0];
    let fd = part.file_data.as_ref().expect("file_data present");
    assert_eq!(fd.file_uri, "https://example.com/cat.png");
}

#[test]
fn provider_file_id_image_emits_file_data_part() {
    let mut req = empty_request();
    req.messages
        .push(Message::user(vec![ContentBlock::Image(ImageBlock {
            source: BinarySource::ProviderFileId {
                file_id: "files/abc123".into(),
            },
            extensions: ExtensionMap::new(),
        })]));

    let body = build(&req, &target());
    let part = &body.contents[0].parts[0];
    let fd = part.file_data.as_ref().expect("file_data present");
    assert_eq!(fd.file_uri, "files/abc123");
}


#[test]
fn tool_call_with_complete_args_emits_function_call_part() {
    let mut req = empty_request();
    req.messages
        .push(Message::assistant(vec![ContentBlock::ToolCall(
            ToolCallBlock {
                id: ToolCallId::from_provider("call_1"),
                name: "get_weather".into(),
                arguments: ToolCallArguments::Complete {
                    value: json(r#"{"city": "Paris"}"#),
                },
                extensions: ExtensionMap::new(),
            },
        )]));

    let body = build(&req, &target());
    let fc = body.contents[0].parts[0]
        .function_call
        .as_ref()
        .expect("functionCall part");
    assert_eq!(fc.name, "get_weather");
    assert_eq!(fc.args, Some(json(r#"{"city": "Paris"}"#)));
}

#[test]
fn tool_call_with_streaming_args_parses_when_valid_json() {
    let mut req = empty_request();
    req.messages
        .push(Message::assistant(vec![ContentBlock::ToolCall(
            ToolCallBlock {
                id: ToolCallId::from_provider("call_1"),
                name: "get_weather".into(),
                arguments: ToolCallArguments::Streaming {
                    data: r#"{"city":"Paris"}"#.into(),
                },
                extensions: ExtensionMap::new(),
            },
        )]));

    let body = build(&req, &target());
    let fc = body.contents[0].parts[0].function_call.as_ref().unwrap();
    assert_eq!(fc.args, Some(json(r#"{"city": "Paris"}"#)));
}

#[test]
fn tool_call_with_invalid_streaming_args_drops_args_field() {
    let mut req = empty_request();
    req.messages
        .push(Message::assistant(vec![ContentBlock::ToolCall(
            ToolCallBlock {
                id: ToolCallId::from_provider("call_1"),
                name: "get_weather".into(),
                arguments: ToolCallArguments::Streaming {
                    data: r#"{"city":"Par"#.into(),
                },
                extensions: ExtensionMap::new(),
            },
        )]));

    let body = build(&req, &target());
    let fc = body.contents[0].parts[0].function_call.as_ref().unwrap();
    assert!(fc.args.is_none());
}


#[test]
fn tool_result_resolves_function_name_from_prior_call() {
    let mut req = empty_request();
    req.messages
        .push(Message::assistant(vec![ContentBlock::ToolCall(
            ToolCallBlock {
                id: ToolCallId::from_provider("call_1"),
                name: "get_weather".into(),
                arguments: ToolCallArguments::Complete {
                    value: json(r#"{"city": "Paris"}"#),
                },
                extensions: ExtensionMap::new(),
            },
        )]));
    req.messages.push(Message {
        role: MessageRole::Tool,
        content: vec![ContentBlock::ToolResult(ToolResultBlock {
            tool_call_id: ToolCallId::from_provider("call_1"),
            content: json(r#"{"temp": 20}"#),
            is_error: false,
            extensions: ExtensionMap::new(),
        })],
        name: None,
        source: None,
        extensions: ExtensionMap::new(),
    });

    let body = build(&req, &target());
    let resp = body.contents[1].parts[0]
        .function_response
        .as_ref()
        .expect("functionResponse part");
    assert_eq!(resp.name, "get_weather");
    assert_eq!(resp.response, json(r#"{"temp": 20}"#));
}

#[test]
fn tool_result_with_string_content_wraps_in_content_object() {
    let mut req = empty_request();
    req.messages.push(Message {
        role: MessageRole::Tool,
        content: vec![ContentBlock::ToolResult(ToolResultBlock {
            tool_call_id: ToolCallId::from_provider("call_1"),
            content: json(r#""23 degrees""#),
            is_error: false,
            extensions: ExtensionMap::new(),
        })],
        name: None,
        source: None,
        extensions: ExtensionMap::new(),
    });

    let body = build(&req, &target());
    let resp = body.contents[0].parts[0]
        .function_response
        .as_ref()
        .unwrap();
    assert_eq!(resp.response, json(r#"{"content": "23 degrees"}"#));
}


#[test]
fn system_blocks_aggregate_into_system_instruction() {
    let mut req = empty_request();
    req.system.push(SystemInstruction {
        source: SystemSource::AnthropicSystem,
        content: vec![ContentBlock::text("You are helpful.")],
    });
    req.system.push(SystemInstruction {
        source: SystemSource::AnthropicSystem,
        content: vec![ContentBlock::text("Be concise.")],
    });

    let body = build(&req, &target());
    let si = body.system_instruction.expect("systemInstruction set");
    assert_eq!(si.role, "user");
    assert_eq!(si.parts.len(), 2);
    assert_eq!(si.parts[0].text.as_deref(), Some("You are helpful."));
    assert_eq!(si.parts[1].text.as_deref(), Some("Be concise."));
}

#[test]
fn system_with_no_text_blocks_yields_no_system_instruction() {
    let mut req = empty_request();
    req.system.push(SystemInstruction {
        source: SystemSource::AnthropicSystem,
        content: vec![ContentBlock::Unsupported(UnsupportedBlock {
            origin: "test".into(),
            raw: json(r#"{"type": "weird"}"#),
        })],
    });
    let body = build(&req, &target());
    assert!(body.system_instruction.is_none());
}


#[test]
fn tools_emit_single_tool_with_function_declarations() {
    let mut req = empty_request();
    req.tools.push(ToolDefinition {
        name: "get_weather".into(),
        description: Some("Get weather for a city".into()),
        input_schema: json(r#"{ "type": "object", "properties": {"city": {"type": "string"}} }"#),
        extensions: ExtensionMap::new(),
    });
    req.tools.push(ToolDefinition {
        name: "send_email".into(),
        description: None,
        input_schema: json(r#"{"type": "object"}"#),
        extensions: ExtensionMap::new(),
    });

    let body = build(&req, &target());
    let tools = body.tools.expect("tools set");
    assert_eq!(tools.len(), 1);
    let decls = &tools[0].function_declarations;
    assert_eq!(decls.len(), 2);
    assert_eq!(decls[0].name, "get_weather");
    assert_eq!(
        decls[0].description.as_deref(),
        Some("Get weather for a city")
    );
    assert_eq!(
        decls[0].parameters,
        Some(json(r#"{ "type": "object", "properties": {"city": {"type": "string"}} }"#))
    );
    assert_eq!(decls[1].name, "send_email");
    assert!(decls[1].description.is_none());
}


#[test]
fn generation_config_omitted_when_no_knobs_set() {
    let body = build(&empty_request(), &target());
    assert!(body.generation_config.is_none());
}

#[test]
fn generation_config_carries_basic_knobs() {
    let mut req = empty_request();
    req.generation = GenerationOptions {
        max_tokens: Some(512),
        temperature: Some(json("0.5")),
        top_p: Some(json("0.75")),
        top_k: Some(40),
        stop_sequences: vec!["END".into(), "STOP".into()],
        ..GenerationOptions::default()
    };
    let body = build(&req, &target());
    let gc = body.generation_config.expect("generation_config set");
    assert_eq!(gc.max_output_tokens, Some(512));
    assert_eq!(gc.temperature, Some(json("0.5")));
    assert_eq!(gc.top_p, Some(json("0.75")));
    assert_eq!(gc.top_k, Some(40));
    assert_eq!(gc.stop_sequences, Some(vec!["END".into(), "STOP".into()]));
}

#[test]
fn response_format_json_object_sets_mime_type_only() {
    let mut req = empty_request();
    req.response_format = Some(ResponseFormat::JsonObject);
    let body = build(&req, &target());
    let gc = body.generation_config.unwrap();
    assert_eq!(gc.response_mime_type.as_deref(), Some("application/json"));
    assert!(gc.response_schema.is_none());
}

#[test]
fn response_format_json_schema_sets_mime_and_schema() {
    let mut req = empty_request();
    req.response_format = Some(ResponseFormat::JsonSchema {
        name: "answer".into(),
        schema: json(r#"{"type": "object"}"#),
        strict: true,
    });
    let body = build(&req, &target());
    let gc = body.generation_config.unwrap();
    assert_eq!(gc.response_mime_type.as_deref(), Some("application/json"));
    assert_eq!(gc.response_schema, Some(json(r#"{"type": "object"}"#)));
}


#[test]
fn explicit_budget_tokens_wins_over_resolved_policy() {
    let mut req = empty_request();
    req.generation.reasoning = Some(ReasoningOptions {
        effort: Some(ReasoningEffort::Low), // would map to 256
        budget_tokens: Some(7777),          // wins
    });
    req.resolved_policy.reasoning_effort = Some(ReasoningEffort::High); // would map to 4096

    let body = build(&req, &target());
    let tc = body
        .generation_config
        .unwrap()
        .thinking_config
        .expect("thinking_config set");
    assert_eq!(tc.thinking_budget, Some(7777));
    assert_eq!(tc.include_thoughts, Some(true));
}

#[test]
fn resolved_policy_effort_wins_over_request_effort_when_no_explicit_budget() {
    let mut req = empty_request();
    req.generation.reasoning = Some(ReasoningOptions {
        effort: Some(ReasoningEffort::Minimal), // would map to 128
        budget_tokens: None,
    });
    req.resolved_policy.reasoning_effort = Some(ReasoningEffort::Xhigh); // wins → 16384

    let body = build(&req, &target());
    let tc = body
        .generation_config
        .unwrap()
        .thinking_config
        .expect("thinking_config set");
    assert_eq!(tc.thinking_budget, Some(16384));
}

#[test]
fn request_effort_used_when_no_resolved_policy_and_no_explicit_budget() {
    let mut req = empty_request();
    req.generation.reasoning = Some(ReasoningOptions {
        effort: Some(ReasoningEffort::Medium),
        budget_tokens: None,
    });

    let body = build(&req, &target());
    let tc = body
        .generation_config
        .unwrap()
        .thinking_config
        .expect("thinking_config set");
    assert_eq!(tc.thinking_budget, Some(1024));
    assert_eq!(tc.include_thoughts, Some(true));
}

#[test]
fn no_reasoning_anywhere_yields_no_thinking_config() {
    let mut req = empty_request();
    req.generation.temperature = Some(json("0.5"));
    let body = build(&req, &target());
    let gc = body.generation_config.unwrap();
    assert!(gc.thinking_config.is_none());
}

#[test]
fn effort_to_budget_table_matches_spec() {
    assert_eq!(effort_to_budget(ReasoningEffort::Minimal), 128);
    assert_eq!(effort_to_budget(ReasoningEffort::Low), 256);
    assert_eq!(effort_to_budget(ReasoningEffort::Medium), 1024);
    assert_eq!(effort_to_budget(ReasoningEffort::High), 4096);
    assert_eq!(effort_to_budget(ReasoningEffort::Xhigh), 16384);
}


#[test]
fn unsupported_and_redacted_blocks_are_dropped() {
    let mut req = empty_request();
    req.messages.push(Message::user(vec![
        ContentBlock::text("real content"),
        ContentBlock::Unsupported(UnsupportedBlock {
            origin: "exotic".into(),
            raw: json(r#"{"weird": true}"#),
        }),
        ContentBlock::RedactedReasoning(RedactedReasoningBlock {
            data: "redacted".into(),
            extensions: ExtensionMap::new(),
        }),
    ]));
    let body = build(&req, &target());
    assert_eq!(body.contents[0].parts.len(), 1);
    assert_eq!(
        body.contents[0].parts[0].text.as_deref(),
        Some("real content")
    );
}


#[test]
fn full_request_serializes_to_camel_case_wire_shape() {
    let mut req = empty_request();
    req.system
        .push(SystemInstruction {
            source: SystemSource::AnthropicSystem,
            content: vec![ContentBlock::text("Be helpful.")],
        });
    req.messages
        .push(Message::user(vec![ContentBlock::text("hi")]));
    req.tools.push(ToolDefinition {
        name: "ping".into(),
        description: None,
        input_schema: json(r#"{"type": "object"}"#),
        extensions: ExtensionMap::new(),
    });
    req.generation.max_tokens = Some(64);
    req.generation.temperature = Some(json("0.5"));
    req.generation.reasoning = Some(ReasoningOptions {
        effort: Some(ReasoningEffort::High),
        budget_tokens: None,
    });

    let body = build(&req, &target());
    let value = body.to_json().to_value();

    assert_eq!(
        value["systemInstruction"]["parts"][0]["text"],
        "Be helpful."
    );
    assert_eq!(value["contents"][0]["role"], "user");
    assert_eq!(value["contents"][0]["parts"][0]["text"], "hi");

    assert_eq!(
        value["tools"][0]["functionDeclarations"][0]["name"],
        "ping"
    );

    assert_eq!(value["generationConfig"]["maxOutputTokens"], 64);
    assert_eq!(value["generationConfig"]["temperature"], 0.5);
    assert_eq!(
        value["generationConfig"]["thinkingConfig"]["thinkingBudget"],
        4096
    );
    assert_eq!(
        value["generationConfig"]["thinkingConfig"]["includeThoughts"],
        true
    );
}

#[test]
fn text_part_roundtrip() {
    let part = Part {
        text: Some("hello".into()),
        ..Part::default()
    };
    let s = part.to_json().to_text();
    assert_eq!(s, r#"{"text":"hello"}"#);

    let back = json(&s);
    assert_eq!(back.str_member("text"), Some("hello"));
    assert!(back.get("thought").is_none());
    assert!(back.get("inlineData").is_none());
    assert!(back.get("fileData").is_none());
    assert!(back.get("functionCall").is_none());
    assert!(back.get("functionResponse").is_none());
}

#[test]
fn thought_part_roundtrip() {
    let part = Part {
        text: Some("...".into()),
        thought: Some(true),
        ..Part::default()
    };
    let s = part.to_json().to_text();
    assert_eq!(s, r#"{"text":"...","thought":true}"#);

    let back = json(&s);
    assert_eq!(back.str_member("text"), Some("..."));
    assert_eq!(back.get("thought").and_then(|t| t.as_bool()), Some(true));
}

#[test]
fn inline_data_part_roundtrip() {
    let part = Part {
        inline_data: Some(InlineData {
            mime_type: "image/png".into(),
            data: "BASE64...".into(),
        }),
        ..Part::default()
    };
    let s = part.to_json().to_text();
    assert_eq!(
        s,
        r#"{"inlineData":{"mimeType":"image/png","data":"BASE64..."}}"#
    );

    let back = json(&s);
    let inline = back.get("inlineData").expect("inlineData present");
    assert_eq!(inline.str_member("mimeType"), Some("image/png"));
    assert_eq!(inline.str_member("data"), Some("BASE64..."));
}

#[test]
fn function_call_part_serializes_args_object() {
    let part = Part {
        function_call: Some(FunctionCall {
            name: "get_weather".into(),
            args: Some(json(r#"{"city": "Paris"}"#)),
            id: None,
        }),
        ..Part::default()
    };
    let s = part.to_json().to_text();
    assert_eq!(
        s,
        r#"{"functionCall":{"name":"get_weather","args":{"city":"Paris"}}}"#
    );

    let back = json(&s);
    let call = back.get("functionCall").expect("functionCall present");
    assert_eq!(call.str_member("name"), Some("get_weather"));
    assert_eq!(call.get("args"), Some(&json(r#"{"city": "Paris"}"#)));
    assert!(call.get("id").is_none());
}

#[test]
fn generation_config_with_thinking_budget() {
    let cfg = GenerationConfig {
        temperature: None,
        top_p: None,
        top_k: None,
        max_output_tokens: None,
        stop_sequences: None,
        response_mime_type: None,
        response_schema: None,
        thinking_config: Some(ThinkingConfig {
            thinking_budget: Some(1024),
            include_thoughts: Some(true),
        }),
    };
    let s = cfg.to_json().to_text();
    assert_eq!(
        s,
        r#"{"thinkingConfig":{"thinkingBudget":1024,"includeThoughts":true}}"#
    );

    let back = json(&s);
    let tc = back.get("thinkingConfig").expect("thinkingConfig present");
    assert_eq!(tc.u64_member("thinkingBudget"), Some(1024));
    assert_eq!(tc.get("includeThoughts").and_then(|t| t.as_bool()), Some(true));
}

#[test]
fn planned_request_goes_to_the_method_of_its_form() {
    let provider = GeminiProvider::new("gemini", "https://g.example/v1beta/", "key", &vec![], 30)
        .unwrap();
    assert_eq!(provider.name(), "gemini");
    assert!(provider.capabilities().vision);
    let mut req = empty_request();
    req.messages.push(Message::user(vec![ContentBlock::text("hi")]));
    let out = provider.plan_completion(&req, &target());
    assert_eq!(
        out.url,
        "https://g.example/v1beta/models/gemini-2.0-flash:generateContent"
    );
    assert_eq!(out.bearer, None);
    assert_eq!(
        out.headers,
        vec![("content-type".to_owned(), "application/json".to_owned())]
    );
    assert_eq!(
        out.body.to_text(),
        r#"{"contents":[{"role":"user","parts":[{"text":"hi"}]}]}"#
    );
    req.stream = true;
    let out = provider.plan_completion(&req, &target());
    assert_eq!(
        out.url,
        "https://g.example/v1beta/models/gemini-2.0-flash:streamGenerateContent"
    );
}

#[test]
fn last_call_with_an_identifier_names_its_result() {
    let call = |name: &str| {
        ContentBlock::ToolCall(ToolCallBlock {
            id: ToolCallId::from_provider("call_1"),
            name: name.to_owned(),
            arguments: ToolCallArguments::Complete { value: json("{}") },
            extensions: ExtensionMap::new(),
        })
    };
    let mut req = empty_request();
    req.messages.push(Message::assistant(vec![call("first"), call("second")]));
    req.messages.push(Message {
        role: MessageRole::Tool,
        content: vec![ContentBlock::ToolResult(ToolResultBlock {
            tool_call_id: ToolCallId::from_provider("call_1"),
            content: json("[1]"),
            is_error: false,
            extensions: ExtensionMap::new(),
        })],
        name: None,
        source: None,
        extensions: ExtensionMap::new(),
    });
    let body = build(&req, &target());
    let resp = body.contents[1].parts[0].function_response.as_ref().unwrap();
    assert_eq!(resp.name, "second");
    assert_eq!(resp.response, json(r#"{"content":[1]}"#));
}

#[test]
fn largest_effort_has_the_largest_budget() {
    assert_eq!(effort_to_budget(ReasoningEffort::Max), 16384);
}
