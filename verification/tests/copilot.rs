//! GitHub Copilot: endpoints, catalog, tokens, login and requests.
use agent_shim_providers::canonical::{
    BackendTarget, CanonicalRequest, ContentBlock, ExtensionMap, FrontendInfo, FrontendKind,
    FrontendModel, GenerationOptions, Message, RequestId, RequestMetadata, ResolvedPolicy,
    RoutePolicy, ToolChoice,
};
use agent_shim_providers::github_copilot::auth::{poll_step, DeviceGrant, PollStep};
use agent_shim_providers::github_copilot::credential_store::StoredCredentials;
use agent_shim_providers::github_copilot::endpoint::{
    check_api_base, validate_api_base, Endpoints, TokenExchangeResponse,
};
use agent_shim_providers::github_copilot::models::{
    parse_models_response, plan_list_models, ModelMetadata,
};
use agent_shim_providers::github_copilot::token_manager::{
    exchange_failure, plan_exchange, CopilotToken, CredentialSource, CredentialStep, TokenCache,
    TokenStep,
};
use agent_shim_providers::github_copilot::{
    build_copilot_headers, capabilities, plan_completion, reply_step, use_responses,
    EditorIdentity, ReplyForm, ReplyStep,
};
use agent_shim_providers::json::Json;
use agent_shim_providers::ProviderError;

fn json(text: &str) -> Json {
    Json::parse(text).unwrap()
}

fn identity() -> EditorIdentity {
    EditorIdentity {
        user_agent: "agent/1".to_owned(),
        editor_version: "editor/2".to_owned(),
        editor_plugin_version: "plugin/3".to_owned(),
        copilot_integration_id: "integration".to_owned(),
        openai_intent: "conversation-panel".to_owned(),
    }
}

fn make_token() -> CopilotToken {
    CopilotToken {
        token: "tid_headertest".to_string(),
        api_base: "https://api.githubcopilot.com".to_string(),
        expires_at_unix: 9_999_999_999,
    }
}

fn anthropic_req_for(endpoints: Option<Vec<&str>>) -> CanonicalRequest {
    CanonicalRequest {
        id: RequestId("req".to_owned()),
        frontend: FrontendInfo {
            kind: FrontendKind::AnthropicMessages,
            requested_model: FrontendModel("alias".to_owned()),
        },
        model: FrontendModel("alias".to_owned()),
        system: vec![],
        messages: vec![Message::user(vec![ContentBlock::text("hello")])],
        tools: vec![],
        tool_choice: ToolChoice::Auto,
        generation: GenerationOptions::default(),
        response_format: None,
        stream: false,
        metadata: RequestMetadata::default(),
        inbound_anthropic_headers: vec![],
        resolved_policy: ResolvedPolicy {
            supported_endpoints: endpoints
                .map(|list| list.into_iter().map(str::to_owned).collect()),
            ..ResolvedPolicy::default()
        },
        extensions: ExtensionMap::new(),
    }
}

fn target(model: &str) -> BackendTarget {
    BackendTarget {
        provider: "github_copilot".to_string(),
        model: model.to_string(),
        policy: RoutePolicy::default(),
    }
}

#[test]
fn reject_http() {
    let err = validate_api_base("http://api.example.com").unwrap_err();
    assert!(err.message().contains("HTTPS"));
    assert_eq!(
        err,
        ProviderError::Encode("API base must use HTTPS, got: http".to_owned())
    );
}

#[test]
fn accept_https_strips_slash() {
    let result = validate_api_base("https://api.example.com/").unwrap();
    assert_eq!(result, "https://api.example.com");
}

#[test]
fn accept_https_no_slash() {
    let result = validate_api_base("https://api.example.com").unwrap();
    assert_eq!(result, "https://api.example.com");
}

#[test]
fn text_that_is_no_url_is_an_error() {
    let err = validate_api_base("not a url").unwrap_err();
    assert_eq!(
        err,
        ProviderError::Encode("invalid URL: relative URL without a base".to_owned())
    );
    assert_eq!(
        check_api_base("https://x//", Ok("https".to_owned())),
        Ok("https://x".to_owned())
    );
}

const CATALOG: &str = r#"{"data":[
  {"id":"gpt-5.5","version":"2026-01","supported_endpoints":["/responses","ws:/responses"],
   "capabilities":{"family":"gpt-5.5",
     "limits":{"max_context_window_tokens":1050000,"max_output_tokens":128000},
     "supports":{"reasoning_effort":["none","low","medium","high","xhigh"],"vision":true,"streaming":true}}},
  {"id":"opus-4.6","capabilities":{"family":"opus-4.6",
     "limits":{"max_context_window_tokens":200000,"max_output_tokens":32000},
     "supports":{"adaptive_thinking":true,"min_thinking_budget":1024,"max_thinking_budget":32000,
       "tool_calls":true,"structured_outputs":false}}},
  {"id":"text-embedding-ada-002","capabilities":{"family":"text-embedding-ada-002","limits":{"max_inputs":512}}},
  {"id":"gpt-4o","capabilities":{"supports":{"reasoning_effort":[],"thinking":false}},"supported_endpoints":[]},
  {"name":"nameless"},
  {"id":"bare"}
]}"#;

fn model(name: &str) -> ModelMetadata {
    parse_models_response(CATALOG).unwrap().get(name).expect("entry").clone()
}

#[test]
fn catalog_is_walked_in_the_order_of_names() {
    let parsed = parse_models_response(CATALOG).unwrap();
    let names: Vec<&str> = (0..parsed.len()).map(|i| parsed.name_at(i)).collect();
    assert_eq!(
        names,
        vec!["bare", "gpt-4o", "gpt-5.5", "opus-4.6", "text-embedding-ada-002"]
    );
}

#[test]
fn efforts_are_listed_and_imply_reasoning() {
    let m = model("gpt-5.5");
    assert_eq!(m.context_window_tokens, Some(1_050_000));
    assert_eq!(m.max_output_tokens, Some(128_000));
    assert_eq!(m.family.as_deref(), Some("gpt-5.5"));
    assert_eq!(m.version.as_deref(), Some("2026-01"));
    assert_eq!(
        m.supports.reasoning_effort_values,
        Some(vec![
            "none".to_string(),
            "low".to_string(),
            "medium".to_string(),
            "high".to_string(),
            "xhigh".to_string(),
        ])
    );
    assert_eq!(m.supports.reasoning_effort, Some(true));
    assert_eq!(m.supports.vision, Some(true));
    assert_eq!(m.supports.streaming, Some(true));
    assert_eq!(
        m.supported_endpoints,
        Some(vec!["/responses".to_string(), "ws:/responses".to_string()])
    );
}

#[test]
fn adaptive_thinking_implies_reasoning() {
    let m = model("opus-4.6");
    assert_eq!(m.adaptive_thinking, Some(true));
    assert_eq!(m.thinking_budget_min, Some(1024));
    assert_eq!(m.thinking_budget_max, Some(32000));
    assert_eq!(m.supports.reasoning_effort, Some(true));
    assert_eq!(m.supports.reasoning_effort_values, None);
    assert_eq!(m.supports.tool_calls, Some(true));
    assert_eq!(m.supports.structured_outputs, Some(false));
}

#[test]
fn what_an_item_does_not_say_is_absent() {
    let m = model("text-embedding-ada-002");
    assert_eq!(m.context_window_tokens, None);
    assert_eq!(m.max_output_tokens, None);
    assert_eq!(m.family.as_deref(), Some("text-embedding-ada-002"));
    let m = model("gpt-4o");
    assert_eq!(m.supports.reasoning_effort_values, None);
    assert_eq!(m.supports.reasoning_effort, Some(false));
    assert_eq!(m.supported_endpoints, None);
    assert_eq!(m.adaptive_thinking, None);
    let m = model("bare");
    assert_eq!(m.family, None);
    assert_eq!(m.supports.reasoning_effort, None);
}

#[test]
fn later_item_replaces_an_earlier_one() {
    let parsed = parse_models_response(
        r#"{"data":[{"id":"a","version":"1"},{"id":"a","version":"2"}]}"#,
    )
    .unwrap();
    assert_eq!(parsed.len(), 1);
    assert_eq!(parsed.value_at(0).version.as_deref(), Some("2"));
}

#[test]
fn missing_data_array_is_an_error() {
    let err = parse_models_response("{}").expect_err("must reject missing data");
    let msg = err.message();
    assert!(msg.contains("missing `data`"), "got: {msg}");
}

#[test]
fn invalid_json_is_a_decode_error() {
    let err = parse_models_response("not json").expect_err("must reject garbage");
    let msg = err.message();
    assert!(msg.contains("models response"), "got: {msg}");
}

#[test]
fn catalog_is_asked_for_with_the_token() {
    let out = plan_list_models(&make_token(), &identity());
    assert_eq!(out.url, "https://api.githubcopilot.com/models");
    assert_eq!(out.bearer.as_deref(), Some("tid_headertest"));
    assert_eq!(out.headers.len(), 4);
    assert_eq!(
        out.headers[3],
        ("copilot-integration-id".to_owned(), "integration".to_owned())
    );
}

fn header<'a>(headers: &'a [(String, String)], name: &str) -> Option<&'a str> {
    headers.iter().find(|h| h.0 == name).map(|h| h.1.as_str())
}

#[test]
fn required_headers_present() {
    let headers =
        build_copilot_headers(&make_token(), &identity(), "test-req-id-1234", false).unwrap();
    assert_eq!(header(&headers, "authorization"), Some("Bearer tid_headertest"));
    assert_eq!(header(&headers, "user-agent"), Some("agent/1"));
    assert_eq!(header(&headers, "editor-version"), Some("editor/2"));
    assert_eq!(header(&headers, "editor-plugin-version"), Some("plugin/3"));
    assert_eq!(header(&headers, "copilot-integration-id"), Some("integration"));
    assert_eq!(header(&headers, "openai-intent"), Some("conversation-panel"));
    assert_eq!(header(&headers, "x-request-id"), Some("test-req-id-1234"));
    assert_eq!(header(&headers, "content-type"), Some("application/json"));
    assert_eq!(header(&headers, "accept"), None);
}

#[test]
fn stream_request_has_accept_header() {
    let headers = build_copilot_headers(&make_token(), &identity(), "req-stream", true).unwrap();
    assert_eq!(header(&headers, "accept"), Some("text/event-stream"));
}

#[test]
fn value_that_no_header_can_have_is_an_error() {
    let mut token = make_token();
    token.token = "a\nb".to_owned();
    assert_eq!(
        build_copilot_headers(&token, &identity(), "id", false),
        Err(ProviderError::Encode(
            "auth header: failed to parse header value".to_owned()
        ))
    );
    assert_eq!(
        build_copilot_headers(&make_token(), &identity(), "a\u{7f}", false),
        Err(ProviderError::Encode(
            "header x-request-id: failed to parse header value".to_owned()
        ))
    );
}

#[test]
fn anthropic_frontend_responses_only_model_hits_responses_api() {
    let req = anthropic_req_for(Some(vec!["/responses", "ws:/responses"]));
    assert!(use_responses(&req));
    let (out, form) =
        plan_completion(&make_token(), &identity(), "id", &req, &target("gpt-5.5")).unwrap();
    assert_eq!(form, ReplyForm::ResponsesStream);
    assert_eq!(out.url, "https://api.githubcopilot.com/v1/responses");
    let body = out.body.to_value();
    assert_eq!(body["model"], "gpt-5.5");
    assert_eq!(body["stream"], true);
    assert_eq!(header(&out.headers, "accept"), Some("text/event-stream"));
}

#[test]
fn anthropic_frontend_chat_only_model_hits_chat_api() {
    let mut req = anthropic_req_for(Some(vec!["/v1/messages", "/chat/completions"]));
    assert!(!use_responses(&req));
    let (out, form) =
        plan_completion(&make_token(), &identity(), "id", &req, &target("opus-4.7")).unwrap();
    assert_eq!(form, ReplyForm::ChatWhole);
    assert_eq!(out.url, "https://api.githubcopilot.com/chat/completions");
    assert_eq!(out.body.to_value()["stream"], false);
    req.stream = true;
    let (out, form) =
        plan_completion(&make_token(), &identity(), "id", &req, &target("opus-4.7")).unwrap();
    assert_eq!(form, ReplyForm::ChatStream);
    assert_eq!(header(&out.headers, "accept"), Some("text/event-stream"));
}

#[test]
fn dialect_decides_where_the_offer_does_not() {
    let mut req = anthropic_req_for(None);
    assert!(!use_responses(&req));
    req.frontend.kind = FrontendKind::OpenAiResponses;
    assert!(use_responses(&req));
    let mut req = anthropic_req_for(Some(vec!["/responses", "/chat/completions"]));
    assert!(!use_responses(&req));
    req.frontend.kind = FrontendKind::OpenAiResponses;
    assert!(use_responses(&req));
}

#[test]
fn stale_token_is_forgotten_on_refusal() {
    assert_eq!(reply_step(200, String::new()), ReplyStep::Read);
    assert_eq!(
        reply_step(401, "x".to_owned()),
        ReplyStep::ForgetToken(ProviderError::Upstream {
            status: 401,
            body: "Copilot token expired, invalidated – retry".to_owned()
        })
    );
    assert_eq!(
        reply_step(500, "down".to_owned()),
        ReplyStep::Fail(ProviderError::Upstream {
            status: 500,
            body: "down".to_owned()
        })
    );
    assert!(!capabilities().vision);
}

#[test]
fn exchange_parses_token_and_endpoint() {
    let token = CopilotToken::from_exchange(TokenExchangeResponse {
        token: "tid_abc123".to_owned(),
        expires_at: 9999999999,
        refresh_in: Some(1500),
        endpoints: Endpoints {
            api: "https://api.githubcopilot.com".to_owned(),
        },
    });
    assert_eq!(token.token, "tid_abc123");
    assert_eq!(token.api_base, "https://api.githubcopilot.com");
    assert_eq!(token.expires_at_unix, 9_999_999_999);
    let creds = StoredCredentials {
        github_oauth_token: "gho_test".to_owned(),
        created_at_unix: 0,
    };
    let out = plan_exchange(&creds, &identity(), "https://api.github.com/");
    assert_eq!(out.url, "https://api.github.com/copilot_internal/v2/token");
    assert_eq!(header(&out.headers, "authorization"), Some("token gho_test"));
    assert_eq!(header(&out.headers, "accept"), Some("application/json"));
}

#[test]
fn exchange_returns_error_on_401() {
    let err = exchange_failure(401, "Unauthorized".to_owned()).unwrap().message();
    assert!(
        err.contains("401") || err.contains("unauthorized") || err.contains("Unauthorized"),
        "unexpected error: {err}"
    );
    assert_eq!(exchange_failure(204, String::new()), None);
    assert_eq!(
        exchange_failure(503, "busy".to_owned()),
        Some(ProviderError::Upstream {
            status: 503,
            body: "busy".to_owned()
        })
    );
}

#[test]
fn token_is_served_until_a_minute_before_it_expires() {
    let mut cache = TokenCache::new();
    assert_eq!(cache.on_get(0), TokenStep::Exchange);
    let mut token = make_token();
    token.expires_at_unix = 1000;
    assert_eq!(cache.on_exchange(Ok(token.clone())), Ok(token.clone()));
    assert_eq!(cache.on_get(939), TokenStep::Serve(token.clone()));
    assert_eq!(cache.on_get(940), TokenStep::Exchange);
    cache.invalidate();
    assert_eq!(cache.on_get(0), TokenStep::Exchange);
    cache.on_exchange(Ok(token)).unwrap();
    let failure = ProviderError::Network("down".to_owned());
    assert_eq!(cache.on_exchange(Err(failure.clone())), Err(failure));
    assert_eq!(cache.on_get(0), TokenStep::Exchange);
}

#[test]
fn token_of_the_distant_past_is_stale() {
    let mut cache = TokenCache::default();
    let mut token = make_token();
    token.expires_at_unix = i64::MIN;
    cache.on_exchange(Ok(token)).unwrap();
    assert_eq!(cache.on_get(1_700_000_000), TokenStep::Exchange);
}

#[test]
fn missing_credentials_point_to_the_login() {
    let error = ProviderError::Encode("read credentials: gone".to_owned());
    assert_eq!(
        TokenCache::on_credentials_failure(&error),
        ProviderError::Network(
            "load credentials: encode error: read credentials: gone — run `agent-shim copilot login` first"
                .to_owned()
        )
    );
}

#[test]
fn credentials_at_hand_need_no_file() {
    let creds = StoredCredentials {
        github_oauth_token: "gho".to_owned(),
        created_at_unix: 3,
    };
    assert_eq!(
        CredentialSource::<String>::Preloaded(creds.clone()).load(),
        CredentialStep::Use(creds)
    );
    assert_eq!(
        CredentialSource::Lazy("/c.json".to_owned()).load(),
        CredentialStep::ReadFile(&"/c.json".to_owned())
    );
}

#[test]
fn device_grant_has_defaults() {
    let grant = DeviceGrant::from_reply(&json(r#"{"device_code":"d"}"#)).unwrap();
    assert_eq!(grant.device_code, "d");
    assert_eq!(grant.user_code, "???");
    assert_eq!(grant.verification_uri, "https://github.com/login/device");
    assert_eq!(grant.interval_secs, 5);
    let grant = DeviceGrant::from_reply(&json(
        r#"{"device_code":"d","user_code":"AB","verification_uri":"https://v","interval":9}"#,
    ))
    .unwrap();
    assert_eq!(grant.user_code, "AB");
    assert_eq!(grant.verification_uri, "https://v");
    assert_eq!(grant.interval_secs, 9);
    assert_eq!(
        DeviceGrant::from_reply(&json("{}")),
        Err(ProviderError::Decode("missing device_code".to_owned()))
    );
}

#[test]
fn poll_goes_on_until_it_is_decided() {
    assert_eq!(
        poll_step(&json(r#"{"access_token":"t","error":"access_denied"}"#)),
        PollStep::Authorized("t".to_owned())
    );
    assert_eq!(poll_step(&json(r#"{"error":"authorization_pending"}"#)), PollStep::Wait);
    assert_eq!(poll_step(&json(r#"{"error":"slow_down"}"#)), PollStep::Wait);
    assert_eq!(poll_step(&json("{}")), PollStep::Wait);
    assert_eq!(poll_step(&json(r#"{"error":"access_denied"}"#)), PollStep::Declined);
    assert_eq!(
        poll_step(&json(r#"{"error":"expired_token"}"#)),
        PollStep::Failed(ProviderError::Upstream {
            status: 400,
            body: "device flow error: expired_token".to_owned()
        })
    );
}
