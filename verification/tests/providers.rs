//! What providers share: settings, headers, planned requests, replies, the
//! registry, and the values underneath.
use agent_shim_providers::anthropic::AnthropicProvider;
use agent_shim_providers::canonical::{
    BackendTarget, CanonicalRequest, ContentBlock, ExtensionMap, FrontendInfo, FrontendKind,
    FrontendModel, GenerationOptions, Message, ReasoningEffort, RequestId, RequestMetadata,
    ResolvedPolicy, RoutePolicy, ToolChoice,
};
use agent_shim_providers::deepseek::DeepseekProvider;
use agent_shim_providers::glm::GlmProvider;
use agent_shim_providers::headers::{configure, set_header};
use agent_shim_providers::json::{no_members, put, put_optional, take_out, Json};
use agent_shim_providers::media::to_data_uri;
use agent_shim_providers::openai_compatible::OpenAiCompatibleProvider;
use agent_shim_providers::sorted_map::{text_precedes, SortedMap};
use agent_shim_providers::text::{join, join_url};
use agent_shim_providers::upstream::{
    discovered_models, is_success, proxied_content_type, read_listing, upstream_failure,
};
use agent_shim_providers::{ProviderCapabilities, ProviderError, ProviderRegistry};

fn json(text: &str) -> Json {
    Json::parse(text).unwrap()
}

fn pairs(list: &[(&str, &str)]) -> Vec<(String, String)> {
    list.iter().map(|(k, v)| (k.to_string(), v.to_string())).collect()
}

fn target(model: &str) -> BackendTarget {
    BackendTarget {
        provider: "p".to_owned(),
        model: model.to_owned(),
        policy: RoutePolicy::default(),
    }
}

fn request() -> CanonicalRequest {
    CanonicalRequest {
        id: RequestId("req".to_owned()),
        frontend: FrontendInfo {
            kind: FrontendKind::OpenAiChat,
            requested_model: FrontendModel("alias".to_owned()),
        },
        model: FrontendModel("alias".to_owned()),
        system: vec![],
        messages: vec![Message::user(vec![ContentBlock::text("hello")])],
        tools: vec![],
        tool_choice: ToolChoice::Auto,
        generation: GenerationOptions::default(),
        response_format: None,
        stream: false,
        metadata: RequestMetadata::default(),
        inbound_anthropic_headers: vec![],
        resolved_policy: ResolvedPolicy::default(),
        extensions: ExtensionMap::new(),
    }
}

#[test]
fn configured_headers_are_small_and_unique() {
    assert_eq!(
        configure(&pairs(&[("X-One", "1"), ("two", "2\t"), ("x-ONE", "3")])),
        Ok(pairs(&[("x-one", "3"), ("two", "2\t")]))
    );
    assert_eq!(
        configure(&pairs(&[("ok", "1"), ("a b", "2"), ("c", "\n")])),
        Err(ProviderError::Encode(
            "invalid header name: invalid HTTP header name".to_owned()
        ))
    );
    assert_eq!(
        configure(&pairs(&[("", "2")])),
        Err(ProviderError::Encode(
            "invalid header name: invalid HTTP header name".to_owned()
        ))
    );
    assert_eq!(
        configure(&pairs(&[("a", "x\ny")])),
        Err(ProviderError::Encode(
            "invalid header value: failed to parse header value".to_owned()
        ))
    );
    assert!(configure(&pairs(&[("a!#$%&'*+-.^_`|~9Z", "é")])).is_ok());
    assert!(configure(&pairs(&[("a\"", "x")])).is_err());
    assert!(configure(&vec![("n".repeat(65535), "x".to_owned())]).is_ok());
    assert!(configure(&vec![("n".repeat(65536), "x".to_owned())]).is_err());
    assert!(configure(&vec![(format!("{}@", "n".repeat(100)), "x".to_owned())]).is_err());
}

#[test]
fn set_header_replaces_in_place() {
    let mut headers = pairs(&[("a", "1"), ("b", "2")]);
    set_header(&mut headers, "a".to_owned(), "3".to_owned());
    set_header(&mut headers, "c".to_owned(), "4".to_owned());
    assert_eq!(headers, pairs(&[("a", "3"), ("b", "2"), ("c", "4")]));
}

#[test]
fn chat_request_is_planned_with_its_headers_in_order() {
    let provider = OpenAiCompatibleProvider::new(
        "openai",
        "https://api.example.com/",
        "test-key",
        &pairs(&[("X-Org", "acme")]),
        30,
    )
    .unwrap();
    let mut req = request();
    req.resolved_policy.anthropic_headers = pairs(&[("anthropic-beta", "b")]);
    let out = provider.plan_completion(&req, &target("gpt-4o"));
    assert_eq!(out.url, "https://api.example.com/v1/chat/completions");
    assert_eq!(out.bearer.as_deref(), Some("test-key"));
    assert_eq!(
        out.headers,
        pairs(&[
            ("content-type", "application/json"),
            ("x-org", "acme"),
            ("anthropic-beta", "b")
        ])
    );
    assert_eq!(
        out.body.to_text(),
        r#"{"model":"gpt-4o","messages":[{"role":"user","content":"hello"}],"stream":false}"#
    );
    assert_eq!(provider.models_url(), "https://api.example.com/v1/models");
    assert_eq!(provider.name(), "openai");
    assert!(provider.capabilities().vision && provider.capabilities().json_mode);
    assert_eq!(provider.settings.timeout_secs, 30);
}

#[test]
fn bad_default_header_fails_every_provider() {
    let bad = pairs(&[("bad name", "x")]);
    assert!(OpenAiCompatibleProvider::new("n", "u", "k", &bad, 1).is_err());
    assert!(DeepseekProvider::new("n", "u", "k", &bad, 1).is_err());
    assert!(GlmProvider::new("n", "u", "k", &bad, 1).is_err());
    assert!(AnthropicProvider::new("n", "u", "k", "v", &bad, 1).is_err());
}

#[test]
fn proxy_raw_responses_posts_to_responses_and_rewrites_model() {
    let provider =
        OpenAiCompatibleProvider::new("openai", "https://o.example", "test-key", &vec![], 30)
            .unwrap();
    let mut to = target("gpt-upstream");
    let out = provider
        .plan_proxy(
            br#"{"model":"alias","input":"Hello","stream":true}"#,
            &to,
            FrontendKind::OpenAiResponses,
        )
        .unwrap()
        .expect("expected raw proxy support");
    assert_eq!(out.url, "https://o.example/v1/responses");
    assert_eq!(out.bearer.as_deref(), Some("test-key"));
    assert_eq!(
        out.body,
        br#"{"model":"gpt-upstream","input":"Hello","stream":true}"#.to_vec()
    );
    assert_eq!(out.headers, pairs(&[("content-type", "application/json")]));
    to.policy.default_anthropic_beta = Some("beta".to_owned());
    let out = provider.plan_proxy(b"{}", &to, FrontendKind::OpenAiResponses).unwrap().unwrap();
    assert_eq!(out.headers[1], ("anthropic-beta".to_owned(), "beta".to_owned()));
    assert_eq!(out.body, br#"{"model":"gpt-upstream"}"#.to_vec());
    for kind in [FrontendKind::OpenAiChat, FrontendKind::AnthropicMessages] {
        assert_eq!(provider.plan_proxy(b"", &to, kind), Ok(None));
    }
    assert_eq!(
        provider.plan_proxy(b"[]", &to, FrontendKind::OpenAiResponses),
        Err(ProviderError::Decode(
            "Responses request body must be a JSON object".to_owned()
        ))
    );
    assert!(matches!(
        provider.plan_proxy(b"nope", &to, FrontendKind::OpenAiResponses),
        Err(ProviderError::Decode(_))
    ));
}

fn anthropic() -> AnthropicProvider {
    AnthropicProvider::new(
        "anthropic",
        "https://a.example",
        "test-key",
        "2023-06-01",
        &vec![],
        30,
    )
    .unwrap()
}

const INBOUND: &[u8] =
    br#"{"model":"alias","messages":[{"role":"user","content":"hi"}],"max_tokens":1024}"#;

#[test]
fn passthrough_text_stream_forwards_bytes_and_rewrites_model() {
    let out = anthropic()
        .plan_proxy(INBOUND, &target("opus-4-7"), FrontendKind::AnthropicMessages)
        .unwrap()
        .expect("expected passthrough");
    assert_eq!(out.url, "https://a.example/v1/messages");
    assert_eq!(out.bearer, None);
    assert_eq!(
        out.headers,
        pairs(&[
            ("x-api-key", "test-key"),
            ("anthropic-version", "2023-06-01"),
            ("content-type", "application/json")
        ])
    );
    assert_eq!(
        out.body,
        br#"{"model":"opus-4-7","messages":[{"role":"user","content":"hi"}],"max_tokens":1024}"#
            .to_vec()
    );
}

#[test]
fn passthrough_returns_none_for_non_anthropic_frontend() {
    for kind in [FrontendKind::OpenAiChat, FrontendKind::OpenAiResponses] {
        assert_eq!(anthropic().plan_proxy(INBOUND, &target("m"), kind), Ok(None));
    }
}

#[test]
fn passthrough_propagates_anthropic_beta_from_route_policy() {
    let mut to = target("m");
    to.policy.default_anthropic_beta = Some("context-1m-2025-08-07".to_owned());
    let out = anthropic()
        .plan_proxy(INBOUND, &to, FrontendKind::AnthropicMessages)
        .unwrap()
        .unwrap();
    assert_eq!(
        out.headers[3],
        ("anthropic-beta".to_owned(), "context-1m-2025-08-07".to_owned())
    );
}

#[test]
fn proxy_raw_returns_none_for_openai_responses_frontend() {
    let kind = FrontendKind::OpenAiResponses;
    assert_eq!(anthropic().plan_proxy(b"{}", &target("m"), kind), Ok(None));
}

#[test]
fn proxy_raw_returns_none_for_openai_chat_frontend() {
    let kind = FrontendKind::OpenAiChat;
    assert_eq!(anthropic().plan_proxy(b"{}", &target("m"), kind), Ok(None));
}

#[test]
fn canonical_path_does_not_gate_on_frontend_kind() {
    let mut req = request();
    let chat = anthropic().plan_completion(&req, &target("m"));
    req.frontend.kind = FrontendKind::OpenAiResponses;
    assert_eq!(anthropic().plan_completion(&req, &target("m")), chat);
}

#[test]
fn messages_request_is_planned_without_a_bearer() {
    let mut req = request();
    req.resolved_policy.anthropic_headers = pairs(&[("anthropic-beta", "b")]);
    let out = anthropic().plan_completion(&req, &target("m"));
    assert_eq!(out.bearer, None);
    assert_eq!(out.headers.len(), 4);
    assert_eq!(out.body.to_value()["max_tokens"], 4096);
    assert!(!anthropic().capabilities().json_mode);
}

#[test]
fn effort_becomes_the_switch_of_glm() {
    let provider =
        GlmProvider::new("glm", "https://open.bigmodel.cn/api/paas/v4/", "k", &vec![], 30).unwrap();
    let mut req = request();
    let body = provider.plan_completion(&req, &target("glm-5.1")).body.to_value();
    assert!(body.get("thinking").is_none());
    req.resolved_policy.reasoning_effort = Some(ReasoningEffort::High);
    let out = provider.plan_completion(&req, &target("glm-5.1"));
    assert_eq!(out.url, "https://open.bigmodel.cn/api/paas/v4/chat/completions");
    let body = out.body.to_value();
    assert_eq!(body["thinking"]["type"], "enabled");
    assert!(body.get("reasoning_effort").is_none());
    req.resolved_policy.reasoning_effort = Some(ReasoningEffort::Minimal);
    let body = provider.plan_completion(&req, &target("glm-5.1")).body.to_value();
    assert_eq!(body["thinking"]["type"], "disabled");
}

#[test]
fn deepseek_request_is_planned_with_its_key() {
    let provider =
        DeepseekProvider::new("deepseek", "https://api.deepseek.com/v1", "k", &vec![], 30).unwrap();
    let out = provider.plan_completion(&request(), &target("deepseek-chat"));
    assert_eq!(out.url, "https://api.deepseek.com/v1/chat/completions");
    assert_eq!(out.bearer.as_deref(), Some("k"));
    assert_eq!(out.body.to_value()["model"], "deepseek-chat");
}

#[test]
fn mod_list_models_returns_discovered_models() {
    let listing = json(
        r#"{"object":"list","data":[{"id":"gpt-4o"},{"id":"gpt-4o-mini"},{"id":"deepseek-chat"},{"id":"gpt-4o"},{"id":7}]}"#,
    );
    let models = discovered_models(&listing).unwrap();
    let names: Vec<&str> = (0..models.len()).map(|i| models.name_at(i)).collect();
    assert_eq!(names, vec!["deepseek-chat", "gpt-4o", "gpt-4o-mini"]);
    assert!(models.get("gpt-4o").is_some());
    assert!(models.get("gpt-5").is_none());
}

#[test]
fn mod_list_models_returns_none_on_404() {
    assert!(matches!(read_listing(404, Err("not found".to_owned())), Ok(None)));
    assert_eq!(
        read_listing(200, Err("EOF".to_owned())).unwrap_err(),
        ProviderError::Decode("EOF".to_owned())
    );
    let models = read_listing(200, Ok(json(r#"{"data":[{"id":"m"}]}"#))).unwrap().unwrap();
    assert_eq!(models.name_at(0), "m");
}

#[test]
fn listing_without_names_says_nothing() {
    assert!(discovered_models(&json("{}")).is_none());
    assert!(discovered_models(&json(r#"{"data":[{"name":"x"}]}"#)).is_none());
}

#[test]
fn status_decides_success() {
    assert!(!is_success(199));
    assert!(is_success(200));
    assert!(is_success(299));
    assert!(!is_success(300));
    assert_eq!(
        upstream_failure(502, None).message(),
        "upstream error (status=502): <unreadable>"
    );
    assert_eq!(
        upstream_failure(404, Some("gone".to_owned())).message(),
        "upstream error (status=404): gone"
    );
    assert_eq!(proxied_content_type(None), "text/event-stream");
    assert_eq!(proxied_content_type(Some("text/x".to_owned())), "text/x");
}

#[test]
fn every_error_says_what_it_is() {
    let text = |e: ProviderError| e.message();
    assert_eq!(text(ProviderError::UnknownProvider("x".into())), "unknown provider: x");
    assert_eq!(text(ProviderError::Network("x".into())), "network error: x");
    assert_eq!(text(ProviderError::Decode("x".into())), "decode error: x");
    assert_eq!(text(ProviderError::Encode("x".into())), "encode error: x");
    assert_eq!(
        text(ProviderError::CapabilityMismatch("x".into())),
        "capability mismatch: x"
    );
    assert_eq!(
        ProviderCapabilities::default(),
        ProviderCapabilities {
            streaming: false,
            tool_use: false,
            vision: false,
            json_mode: false,
            accepts_xhigh: false,
        }
    );
}

#[test]
fn registry_resolves_by_name() {
    let mut registry: ProviderRegistry<u8> = ProviderRegistry::new();
    registry.register("b".to_owned(), 1);
    registry.register("a".to_owned(), 2);
    registry.register("b".to_owned(), 3);
    assert_eq!(registry.iter(), vec![("a", &2), ("b", &3)]);
    assert_eq!(registry.get("a"), Some(&2));
    assert_eq!(registry.get("c"), None);
    let mut to = target("m");
    to.provider = "b".to_owned();
    let (provider, req, resolved) = registry.resolve(request(), to).unwrap();
    assert_eq!(*provider, 3);
    assert_eq!(req, request());
    assert_eq!(resolved.model, "m");
    assert_eq!(
        registry.resolve(request(), target("m")).unwrap_err(),
        ProviderError::UnknownProvider("p".to_owned())
    );
}

#[test]
fn names_are_ordered_like_strings() {
    let names = ["", "a", "ab", "b", "é", "z", "Z", "aa", "日本"];
    for x in names {
        for y in names {
            assert_eq!(text_precedes(x, y), x < y, "{x} {y}");
        }
    }
    let mut map: SortedMap<usize> = SortedMap::default();
    assert!(map.is_empty());
    for (i, name) in names.iter().enumerate() {
        map.insert(name.to_string(), i);
    }
    let mut sorted: Vec<&str> = names.to_vec();
    sorted.sort();
    let walked: Vec<&str> = (0..map.len()).map(|i| map.name_at(i)).collect();
    assert_eq!(walked, sorted);
    for (i, name) in names.iter().enumerate() {
        assert_eq!(map.get(name), Some(&i));
    }
}

#[test]
fn json_keeps_the_order_of_members() {
    let value = json(r#"{"b":1,"a":[true,null,1.5,-2,"x"]}"#);
    assert_eq!(value.to_text(), r#"{"b":1,"a":[true,null,1.5,-2,"x"]}"#);
    assert_eq!(value.to_bytes().unwrap(), value.to_text().into_bytes());
    assert_eq!(Json::from_value(value.to_value()), value);
    assert_eq!(Json::parse_bytes(b"[1]").unwrap(), json("[1]"));
    assert!(Json::parse_bytes(b"\xff").is_err());
    assert_eq!(Json::parse("").unwrap_err(), "EOF while parsing a value at line 1 column 0");
    assert_eq!(value.u64_member("b"), Some(1));
    assert_eq!(value.u64_member("a"), None);
    assert_eq!(value.str_member("b"), None);
    assert_eq!(value.str_member_or("c", "d"), "d");
    assert_eq!(json(r#"{"n":4294967298}"#).u32_member("n"), Some(2));
    assert_eq!(json(r#"{"n":-1}"#).u64_member("n"), None);
    assert_eq!(json("[false]").as_array().unwrap()[0].as_bool(), Some(false));
    assert!(json("null").is_null());
    assert_eq!(Json::signed(-9).to_text(), "-9");
    assert_eq!(Json::unsigned(18446744073709551615).to_text(), "18446744073709551615");
    assert_eq!(value.clone(), value);
}

#[test]
fn extensions_are_read_back() {
    let mut map = ExtensionMap::new();
    assert!(map.is_empty());
    map.insert("k", json("1"));
    map.insert("l", json("2"));
    map.insert("k", json("3"));
    assert_eq!(map.get("k"), Some(&json("3")));
    assert_eq!(map.get("l"), Some(&json("2")));
    assert_eq!(map.get("m"), None);
}

#[test]
fn members_are_set_and_taken_out() {
    let mut entries = no_members();
    put(&mut entries, "a", json("1"));
    put(&mut entries, "b", json("2"));
    put(&mut entries, "c", json("3"));
    put(&mut entries, "b", json("4"));
    put_optional(&mut entries, "d", None);
    assert_eq!(Json::Object(entries.clone()).to_text(), r#"{"a":1,"b":4,"c":3}"#);
    assert!(take_out(&mut entries, "a"));
    assert!(!take_out(&mut entries, "a"));
    assert_eq!(Json::Object(entries).to_text(), r#"{"c":3,"b":4}"#);
}

#[test]
fn text_helpers() {
    assert_eq!(join_url(&join_url("https://x//", ""), ""), "https://x");
    assert_eq!(join_url("https://x//", "/p"), "https://x/p");
    assert_eq!(join_url("///", ""), "");
    assert_eq!(
        join(&vec!["a".to_owned(), "".to_owned(), "b".to_owned()], ", "),
        "a, , b"
    );
    assert_eq!(join(&vec![], ", "), "");
    assert_eq!(to_data_uri("image/png", b"\x89PNG\r\n"), "data:image/png;base64,iVBORw0K");
}
