//! Replies of the Generate Content API, whole and streamed.
use agent_shim_providers::canonical::{BinarySource, ContentBlock, ToolCallArguments};
use agent_shim_providers::gemini::response::{identifiers_needed, parse_unary, StreamState};
use agent_shim_providers::gemini::stream::{Frame, Scanner};
use agent_shim_providers::gemini::synthesis::synthesize;
use agent_shim_providers::gemini::wire::{
    Candidate, Content, FileData, FunctionCall, GenerateContentResponse, InlineData, Part,
    SafetyRating, UsageMetadata,
};
use agent_shim_providers::json::Json;
use agent_shim_providers::stream::{
    CanonicalResponse, ContentBlockKind, ResponseId, StopReason, StreamError, StreamEvent,
};

fn json(text: &str) -> Json {
    Json::parse(text).unwrap()
}

fn fresh_for(resp: &GenerateContentResponse) -> Vec<String> {
    (0..identifiers_needed(resp)).map(|i| format!("fresh_{i}")).collect()
}

fn unary(resp: GenerateContentResponse) -> CanonicalResponse {
    let fresh = fresh_for(&resp);
    parse_unary(resp, "gemini-2.0-flash", ResponseId("resp_1".to_owned()), &fresh)
}

fn part_text(text: &str) -> Part {
    Part {
        text: Some(text.to_string()),
        ..Part::default()
    }
}

fn part_thought(text: &str) -> Part {
    Part {
        text: Some(text.to_string()),
        thought: Some(true),
        ..Part::default()
    }
}

fn part_call(name: &str, args: Json) -> Part {
    Part {
        function_call: Some(FunctionCall {
            name: name.to_string(),
            args: Some(args),
            id: None,
        }),
        ..Part::default()
    }
}

fn response_with_parts(parts: Vec<Part>, finish: Option<&str>) -> GenerateContentResponse {
    GenerateContentResponse {
        candidates: vec![Candidate {
            content: Content {
                role: "model".into(),
                parts,
            },
            finish_reason: finish.map(String::from),
            safety_ratings: vec![],
            index: None,
            citation_metadata: None,
        }],
        prompt_feedback: None,
        usage_metadata: None,
    }
}

#[test]
fn unary_text_only_response() {
    let resp = response_with_parts(vec![part_text("Hello")], Some("STOP"));
    let canonical = unary(resp);
    assert_eq!(canonical.model, "gemini-2.0-flash");
    assert_eq!(canonical.content.len(), 1);
    match &canonical.content[0] {
        ContentBlock::Text(t) => assert_eq!(t.text, "Hello"),
        other => panic!("expected Text, got {other:?}"),
    }
    assert_eq!(canonical.stop_reason, StopReason::EndTurn);
}

#[test]
fn unary_coalesces_consecutive_text_parts_into_one_block() {
    let resp = response_with_parts(
        vec![part_text("Hello"), part_text(", "), part_text("world!")],
        Some("STOP"),
    );
    let canonical = unary(resp);
    assert_eq!(canonical.content.len(), 1);
    match &canonical.content[0] {
        ContentBlock::Text(t) => assert_eq!(t.text, "Hello, world!"),
        other => panic!("expected Text, got {other:?}"),
    }
}

#[test]
fn unary_separates_reasoning_and_text_blocks() {
    let resp = response_with_parts(
        vec![part_thought("thinking..."), part_text("the answer is 42")],
        Some("STOP"),
    );
    let canonical = unary(resp);
    assert_eq!(canonical.content.len(), 2);
    match &canonical.content[0] {
        ContentBlock::Reasoning(r) => assert_eq!(r.text, "thinking..."),
        other => panic!("expected Reasoning, got {other:?}"),
    }
    match &canonical.content[1] {
        ContentBlock::Text(t) => assert_eq!(t.text, "the answer is 42"),
        other => panic!("expected Text, got {other:?}"),
    }
}

#[test]
fn unary_function_call_yields_tool_call_block_and_tool_use_stop() {
    let resp = response_with_parts(
        vec![part_call("get_weather", json(r#"{"city": "Paris"}"#))],
        Some("STOP"), // STOP gets upgraded to ToolUse because of the call
    );
    let canonical = unary(resp);
    assert_eq!(canonical.content.len(), 1);
    match &canonical.content[0] {
        ContentBlock::ToolCall(tc) => {
            assert_eq!(tc.name, "get_weather");
            match &tc.arguments {
                ToolCallArguments::Complete { value } => {
                    assert_eq!(value, &json(r#"{"city": "Paris"}"#));
                }
                other => panic!("expected Complete args, got {other:?}"),
            }
        }
        other => panic!("expected ToolCall, got {other:?}"),
    }
    assert_eq!(canonical.stop_reason, StopReason::ToolUse);
}

#[test]
fn unary_inline_image_decodes_base64_into_canonical_block() {
    let resp = response_with_parts(
        vec![Part {
            inline_data: Some(InlineData {
                mime_type: "image/png".into(),
                data: "iVBORw0K".into(),
            }),
            ..Part::default()
        }],
        Some("STOP"),
    );
    let canonical = unary(resp);
    match &canonical.content[0] {
        ContentBlock::Image(img) => match &img.source {
            BinarySource::Base64 { media_type, data } => {
                assert_eq!(media_type, "image/png");
                assert_eq!(data.as_slice(), b"\x89PNG\r\n");
            }
            other => panic!("expected Base64 source, got {other:?}"),
        },
        other => panic!("expected Image, got {other:?}"),
    }
}

#[test]
fn unary_url_image_passes_through_as_url_source() {
    let resp = response_with_parts(
        vec![Part {
            file_data: Some(FileData {
                mime_type: "image/png".into(),
                file_uri: "https://example.com/cat.png".into(),
            }),
            ..Part::default()
        }],
        Some("STOP"),
    );
    let canonical = unary(resp);
    match &canonical.content[0] {
        ContentBlock::Image(img) => match &img.source {
            BinarySource::Url { url } => {
                assert_eq!(url, "https://example.com/cat.png");
            }
            other => panic!("expected Url source, got {other:?}"),
        },
        other => panic!("expected Image, got {other:?}"),
    }
}

#[test]
fn unary_max_tokens_finish_maps_to_max_tokens_stop() {
    let resp = response_with_parts(vec![part_text("partial")], Some("MAX_TOKENS"));
    let canonical = unary(resp);
    assert_eq!(canonical.stop_reason, StopReason::MaxTokens);
}

#[test]
fn unary_safety_finish_maps_to_content_filter() {
    let resp = response_with_parts(vec![], Some("SAFETY"));
    let canonical = unary(resp);
    assert_eq!(canonical.stop_reason, StopReason::ContentFilter);
}

#[test]
fn unary_unknown_finish_maps_to_other() {
    let resp = response_with_parts(vec![part_text("hi")], Some("WEIRD"));
    let canonical = unary(resp);
    assert_eq!(canonical.stop_reason, StopReason::Other("WEIRD".into()));
}

#[test]
fn unary_no_candidates_yields_empty_blocks_and_default_stop() {
    let resp = GenerateContentResponse {
        candidates: vec![],
        prompt_feedback: None,
        usage_metadata: None,
    };
    let canonical = unary(resp);
    assert!(canonical.content.is_empty());
    assert_eq!(canonical.stop_reason, StopReason::EndTurn);
}

#[test]
fn unary_usage_metadata_translates_to_canonical_usage() {
    let resp = GenerateContentResponse {
        candidates: vec![Candidate {
            content: Content {
                role: "model".into(),
                parts: vec![part_text("hi")],
            },
            finish_reason: Some("STOP".into()),
            safety_ratings: vec![],
            index: None,
            citation_metadata: None,
        }],
        prompt_feedback: None,
        usage_metadata: Some(UsageMetadata {
            prompt_token_count: Some(10),
            candidates_token_count: Some(5),
            thoughts_token_count: Some(3),
            total_token_count: Some(18),
        }),
    };
    let canonical = unary(resp);
    let usage = canonical.usage.expect("usage present");
    assert_eq!(usage.input_tokens, Some(10));
    assert_eq!(usage.output_tokens, Some(5));
    assert_eq!(usage.reasoning_tokens, Some(3));
}

#[test]
fn unary_safety_ratings_attach_to_first_block_extensions() {
    let resp = GenerateContentResponse {
        candidates: vec![Candidate {
            content: Content {
                role: "model".into(),
                parts: vec![part_text("hi")],
            },
            finish_reason: Some("STOP".into()),
            safety_ratings: vec![SafetyRating {
                category: "HARM_CATEGORY_HARASSMENT".into(),
                probability: "NEGLIGIBLE".into(),
                blocked: None,
            }],
            index: None,
            citation_metadata: None,
        }],
        prompt_feedback: None,
        usage_metadata: None,
    };
    let canonical = unary(resp);
    let block = &canonical.content[0];
    let ext = match block {
        ContentBlock::Text(b) => &b.extensions,
        _ => panic!("expected Text"),
    };
    let ratings = ext
        .get("gemini.safety_ratings")
        .expect("gemini.safety_ratings present");
    assert_eq!(
        ratings,
        &json(r#"[{ "category":"HARM_CATEGORY_HARASSMENT", "probability":"NEGLIGIBLE", "blocked": null }]"#)
    );
}

fn collect_streaming(responses: Vec<GenerateContentResponse>) -> Vec<StreamEvent> {
    let mut state = StreamState::new(
        "gemini-2.0-flash".to_string(),
        ResponseId("resp_1".to_owned()),
    );
    let mut events = Vec::new();
    for resp in responses {
        let fresh = fresh_for(&resp);
        events.extend(state.handle(resp, &fresh, 7).unwrap());
    }
    events.extend(state.finalize());
    events
}

fn kinds(events: &[StreamEvent]) -> Vec<&'static str> {
    events
        .iter()
        .map(|e| match e {
            StreamEvent::ResponseStart { .. } => "ResponseStart",
            StreamEvent::MessageStart { .. } => "MessageStart",
            StreamEvent::ContentBlockStart { .. } => "ContentBlockStart",
            StreamEvent::TextDelta { .. } => "TextDelta",
            StreamEvent::ReasoningDelta { .. } => "ReasoningDelta",
            StreamEvent::ContentBlockStop { .. } => "ContentBlockStop",
            StreamEvent::MessageStop { .. } => "MessageStop",
            StreamEvent::ResponseStop { .. } => "ResponseStop",
            _ => "Other",
        })
        .collect()
}

#[test]
fn streaming_emits_response_start_then_message_start_then_text_deltas_then_stop() {
    let events = collect_streaming(vec![
        response_with_parts(vec![part_text("Hello")], None),
        response_with_parts(vec![part_text(", world!")], Some("STOP")),
    ]);
    assert_eq!(
        kinds(&events),
        vec![
            "ResponseStart",
            "MessageStart",
            "ContentBlockStart",
            "TextDelta",
            "TextDelta",
            "ContentBlockStop",
            "MessageStop",
            "ResponseStop"
        ]
    );
    assert_eq!(
        events[0],
        StreamEvent::ResponseStart {
            id: ResponseId("resp_1".to_owned()),
            model: "gemini-2.0-flash".to_owned(),
            created_at_unix: 7,
        }
    );
}

#[test]
fn streaming_separates_reasoning_then_text_into_two_blocks() {
    let events = collect_streaming(vec![
        response_with_parts(vec![part_thought("hmm")], None),
        response_with_parts(vec![part_text("answer")], Some("STOP")),
    ]);
    let mut saw_reasoning = false;
    let mut saw_text = false;
    for ev in &events {
        match ev {
            StreamEvent::ContentBlockStart {
                index,
                kind: ContentBlockKind::Reasoning,
            } => {
                assert_eq!(*index, 0);
                saw_reasoning = true;
            }
            StreamEvent::ContentBlockStart {
                index,
                kind: ContentBlockKind::Text,
            } => {
                assert_eq!(*index, 1);
                saw_text = true;
            }
            _ => {}
        }
    }
    assert!(saw_reasoning && saw_text);
}

#[test]
fn streaming_function_call_emits_full_tool_block_and_message_stop_is_tool_use() {
    let events = collect_streaming(vec![response_with_parts(
        vec![part_call("get_weather", json(r#"{"city": "Paris"}"#))],
        Some("STOP"),
    )]);
    let mut saw_tool_start = false;
    let mut saw_args_delta = false;
    let mut saw_tool_stop = false;
    let mut stop_reason = None;
    for ev in &events {
        match ev {
            StreamEvent::ToolCallStart { name, id, .. } => {
                assert_eq!(name, "get_weather");
                assert_eq!(id.0, "fresh_0");
                saw_tool_start = true;
            }
            StreamEvent::ToolCallArgumentsDelta { json_fragment, .. } => {
                assert_eq!(json_fragment, r#"{"city":"Paris"}"#);
                saw_args_delta = true;
            }
            StreamEvent::ToolCallStop { .. } => saw_tool_stop = true,
            StreamEvent::MessageStop { stop_reason: r, .. } => stop_reason = Some(r.clone()),
            _ => {}
        }
    }
    assert!(saw_tool_start && saw_args_delta && saw_tool_stop);
    assert_eq!(stop_reason, Some(StopReason::ToolUse));
}

#[test]
fn streaming_finalize_emits_stop_when_upstream_closes_without_finish_reason() {
    let events = collect_streaming(vec![response_with_parts(vec![part_text("Hi")], None)]);
    let last_two = &events[events.len() - 2..];
    assert!(matches!(last_two[0], StreamEvent::MessageStop { .. }));
    assert!(matches!(last_two[1], StreamEvent::ResponseStop { .. }));
}

#[test]
fn streaming_usage_metadata_attaches_to_response_stop() {
    let mut resp = response_with_parts(vec![part_text("ok")], Some("STOP"));
    resp.usage_metadata = Some(UsageMetadata {
        prompt_token_count: Some(7),
        candidates_token_count: Some(3),
        thoughts_token_count: None,
        total_token_count: Some(10),
    });
    let events = collect_streaming(vec![resp]);
    match events.last().unwrap() {
        StreamEvent::ResponseStop { usage: Some(u) } => {
            assert_eq!(u.input_tokens, Some(7));
            assert_eq!(u.output_tokens, Some(3));
        }
        other => panic!("expected ResponseStop with usage, got {other:?}"),
    }
}

#[test]
fn streaming_no_double_stop_when_post_finish_chunk_arrives() {
    let events = collect_streaming(vec![
        response_with_parts(vec![part_text("done")], Some("STOP")),
        response_with_parts(vec![part_text("ghost")], None),
    ]);
    let stop_count = events
        .iter()
        .filter(|e| matches!(e, StreamEvent::ResponseStop { .. }))
        .count();
    assert_eq!(stop_count, 1, "must emit exactly one ResponseStop");
}

#[test]
fn streaming_reasoning_then_text_then_tool_call_allocates_indices_correctly() {
    let mut last = response_with_parts(
        vec![part_call("get_weather", json(r#"{"city":"Paris"}"#))],
        Some("STOP"),
    );
    last.usage_metadata = Some(UsageMetadata {
        prompt_token_count: Some(5),
        candidates_token_count: Some(12),
        total_token_count: Some(17),
        thoughts_token_count: Some(4),
    });
    let events = collect_streaming(vec![
        response_with_parts(vec![part_thought("Let me think")], None),
        response_with_parts(vec![part_thought(" about it")], None),
        response_with_parts(vec![part_text("OK, calling get_weather:")], None),
        last,
    ]);
    let starts: Vec<(u32, ContentBlockKind)> = events
        .iter()
        .filter_map(|e| match e {
            StreamEvent::ContentBlockStart { index, kind } => Some((*index, *kind)),
            _ => None,
        })
        .collect();
    assert_eq!(
        starts,
        vec![
            (0, ContentBlockKind::Reasoning),
            (1, ContentBlockKind::Text),
            (2, ContentBlockKind::ToolCall)
        ]
    );
    let reasoning: String = events
        .iter()
        .filter_map(|e| match e {
            StreamEvent::ReasoningDelta { text, .. } => Some(text.as_str()),
            _ => None,
        })
        .collect();
    assert_eq!(reasoning, "Let me think about it");
    assert!(events.iter().any(|e| matches!(
        e,
        StreamEvent::ToolCallArgumentsDelta { json_fragment, .. }
            if json_fragment == r#"{"city":"Paris"}"#
    )));
    assert!(events.iter().any(|e| matches!(
        e,
        StreamEvent::MessageStop { stop_reason: StopReason::ToolUse, .. }
    )));
    match events.last() {
        Some(StreamEvent::ResponseStop { usage: Some(usage) }) => {
            assert_eq!(usage.reasoning_tokens, Some(4));
        }
        other => panic!("expected ResponseStop with usage, got {other:?}"),
    }
}

#[test]
fn stream_that_never_started_owes_nothing() {
    assert_eq!(collect_streaming(vec![]), vec![]);
}

#[test]
fn negative_and_wide_counts_are_cut() {
    let mut resp = response_with_parts(vec![], None);
    resp.usage_metadata = Some(UsageMetadata {
        prompt_token_count: Some(-5),
        candidates_token_count: Some(0x1_0000_0002),
        thoughts_token_count: None,
        total_token_count: None,
    });
    let usage = unary(resp).usage.unwrap();
    assert_eq!(usage.input_tokens, Some(0));
    assert_eq!(usage.output_tokens, Some(2));
    assert_eq!(usage.reasoning_tokens, None);
}

#[test]
fn inline_data_that_is_no_base64_only_ends_the_run() {
    let bad = Part {
        inline_data: Some(InlineData {
            mime_type: "image/png".into(),
            data: "not base64!".into(),
        }),
        ..Part::default()
    };
    let canonical = unary(response_with_parts(
        vec![part_text("a"), bad, part_text("b")],
        None,
    ));
    assert_eq!(
        canonical.content,
        vec![ContentBlock::text("a"), ContentBlock::text("b")]
    );
}

#[test]
fn call_keeps_its_own_identifier() {
    let mut call = part_call("f", json("{}"));
    call.function_call.as_mut().unwrap().id = Some("own".to_owned());
    call.function_call.as_mut().unwrap().args = None;
    let canonical = unary(response_with_parts(vec![call], Some("MAX_TOKENS")));
    match &canonical.content[0] {
        ContentBlock::ToolCall(tc) => {
            assert_eq!(tc.id.0, "own");
            assert_eq!(tc.arguments, ToolCallArguments::Complete { value: json("{}") });
        }
        other => panic!("expected ToolCall, got {other:?}"),
    }
    assert_eq!(canonical.stop_reason, StopReason::MaxTokens);
}

#[test]
fn citations_stand_beside_the_ratings() {
    let mut resp = response_with_parts(vec![part_text("a"), part_thought("b")], Some("RECITATION"));
    resp.candidates[0].citation_metadata = Some(json(r#"{"n":1}"#));
    let canonical = unary(resp);
    assert_eq!(canonical.stop_reason, StopReason::ContentFilter);
    match (&canonical.content[0], &canonical.content[1]) {
        (ContentBlock::Text(first), ContentBlock::Reasoning(second)) => {
            assert_eq!(
                first.extensions.get("gemini.citation_metadata"),
                Some(&json(r#"{"n":1}"#))
            );
            assert!(second.extensions.is_empty());
        }
        other => panic!("unexpected blocks {other:?}"),
    }
}

#[test]
fn synthesized_events_skip_images_and_number_the_rest() {
    let image = Part {
        inline_data: Some(InlineData {
            mime_type: "image/png".into(),
            data: "iVBORw0K".into(),
        }),
        ..Part::default()
    };
    let canonical = unary(response_with_parts(
        vec![part_text("Here is your image:"), image, part_thought("done")],
        Some("STOP"),
    ));
    let events = synthesize(canonical, 9).unwrap();
    assert_eq!(
        kinds(&events),
        vec![
            "ResponseStart",
            "MessageStart",
            "ContentBlockStart",
            "TextDelta",
            "ContentBlockStop",
            "ContentBlockStart",
            "ReasoningDelta",
            "ContentBlockStop",
            "MessageStop",
            "ResponseStop"
        ]
    );
    assert_eq!(
        events[3],
        StreamEvent::TextDelta {
            index: 0,
            text: "Here is your image:".to_owned()
        }
    );
    assert_eq!(
        events[6],
        StreamEvent::ReasoningDelta {
            index: 1,
            text: "done".to_owned()
        }
    );
}

#[test]
fn synthesized_call_is_a_whole_block() {
    let canonical = unary(response_with_parts(
        vec![part_call("f", json(r#"{"a": 1}"#))],
        Some("STOP"),
    ));
    let events = synthesize(canonical, 0).unwrap();
    assert_eq!(
        events[4],
        StreamEvent::ToolCallArgumentsDelta {
            index: 0,
            json_fragment: r#"{"a":1}"#.to_owned()
        }
    );
    assert_eq!(events.len(), 9);
}

fn read(frames: Vec<Frame>) -> Vec<Result<serde_json::Value, StreamError>> {
    frames
        .into_iter()
        .map(|frame| match frame {
            Frame::Object(bytes) => Ok(serde_json::from_slice(&bytes).unwrap()),
            Frame::Error(error) => Err(error),
        })
        .collect()
}

fn feed_one_byte_at_a_time(body: &[u8]) -> Vec<Result<serde_json::Value, StreamError>> {
    let mut scanner = Scanner::new();
    let mut out = Vec::new();
    for &b in body {
        out.extend(read(scanner.feed(&[b])));
    }
    if let Some(err) = scanner.finalize() {
        out.push(Err(err));
    }
    out
}

fn feed_whole(body: &[u8]) -> Vec<Result<serde_json::Value, StreamError>> {
    let mut scanner = Scanner::new();
    let mut out = read(scanner.feed(body));
    if let Some(err) = scanner.finalize() {
        out.push(Err(err));
    }
    out
}

const SAMPLE_BODY: &str = r#"[
{"candidates":[{"content":{"role":"model","parts":[{"text":"Hello"}]}}]},
{"candidates":[{"content":{"role":"model","parts":[{"text":" world"}]},"finishReason":"STOP"}],"usageMetadata":{"promptTokenCount":1,"candidatesTokenCount":2,"totalTokenCount":3}}
]"#;

#[test]
fn empty_array_yields_no_objects() {
    let out = feed_whole(b"[]");
    assert!(out.is_empty(), "got unexpected items: {out:?}");
}

#[test]
fn empty_array_with_whitespace_yields_no_objects() {
    let out = feed_whole(b"  [\n  \n  ]\n");
    assert!(out.is_empty(), "got unexpected items: {out:?}");
}

#[test]
fn single_object_array_yields_one_response() {
    let body = br#"[{"candidates":[]}]"#;
    let out = feed_whole(body);
    assert_eq!(out.len(), 1);
    let resp = out[0].as_ref().expect("ok response");
    assert_eq!(resp["candidates"], serde_json::Value::Array(vec![]));
}

#[test]
fn two_object_array_yields_two_responses_in_order() {
    let out = feed_whole(SAMPLE_BODY.as_bytes());
    assert_eq!(out.len(), 2);
    let first = out[0].as_ref().expect("first ok");
    let second = out[1].as_ref().expect("second ok");
    assert_eq!(
        first["candidates"][0]["content"]["parts"][0]["text"].as_str(),
        Some("Hello")
    );
    assert_eq!(
        second["candidates"][0]["content"]["parts"][0]["text"].as_str(),
        Some(" world")
    );
    assert_eq!(
        second["usageMetadata"]["totalTokenCount"],
        3
    );
}


#[test]
fn one_byte_at_a_time_is_equivalent_to_whole_chunk() {
    let whole = feed_whole(SAMPLE_BODY.as_bytes());
    let drip = feed_one_byte_at_a_time(SAMPLE_BODY.as_bytes());
    assert_eq!(whole.len(), 2);
    assert_eq!(drip.len(), 2);

    for (a, b) in whole.iter().zip(drip.iter()) {
        let a = a.as_ref().expect("ok in whole");
        let b = b.as_ref().expect("ok in drip");
        assert_eq!(
            a["candidates"][0]["content"]["parts"][0]["text"],
            b["candidates"][0]["content"]["parts"][0]["text"]
        );
    }
}

#[test]
fn split_at_every_position_yields_same_two_objects() {
    let body = SAMPLE_BODY.as_bytes();
    for i in 0..body.len() {
        let mut scanner = Scanner::new();
        let mut out = read(scanner.feed(&body[..i]));
        out.extend(read(scanner.feed(&body[i..])));
        assert!(scanner.finalize().is_none(), "finalize error at split {i}");
        assert_eq!(out.len(), 2, "wrong count at split {i}: {out:?}");
        assert!(
            out[0].is_ok() && out[1].is_ok(),
            "non-ok result at split {i}: {out:?}"
        );
    }
}

#[test]
fn split_inside_string_does_not_misinterpret_brackets() {
    let body = br#"[{"candidates":[{"content":{"role":"model","parts":[{"text":"weird ]}{,\"chars\""}]}}]}]"#;
    let out = feed_one_byte_at_a_time(body);
    assert_eq!(out.len(), 1, "{out:?}");
    let resp = out[0].as_ref().expect("ok");
    assert_eq!(
        resp["candidates"][0]["content"]["parts"][0]["text"].as_str(),
        Some(r#"weird ]}{,"chars""#)
    );
}

#[test]
fn split_inside_escape_sequence_is_safe() {
    let body = br#"[{"candidates":[{"content":{"role":"model","parts":[{"text":"a\"b"}]}}]}]"#;
    for i in 0..body.len() {
        let mut scanner = Scanner::new();
        let mut out = read(scanner.feed(&body[..i]));
        out.extend(read(scanner.feed(&body[i..])));
        assert!(scanner.finalize().is_none(), "finalize error at split {i}");
        assert_eq!(out.len(), 1, "wrong count at split {i}");
        let resp = out[0].as_ref().expect("ok at split {i}");
        assert_eq!(
            resp["candidates"][0]["content"]["parts"][0]["text"].as_str(),
            Some(r#"a"b"#),
            "mismatch at split {i}"
        );
    }
}

#[test]
fn split_inside_unicode_escape_is_safe() {
    let body = br#"[{"candidates":[{"content":{"role":"model","parts":[{"text":"A}"}]}}]}]"#;
    for i in 0..body.len() {
        let mut scanner = Scanner::new();
        let mut out = read(scanner.feed(&body[..i]));
        out.extend(read(scanner.feed(&body[i..])));
        assert!(scanner.finalize().is_none(), "finalize at split {i}");
        assert_eq!(out.len(), 1, "wrong count at split {i}");
        let resp = out[0].as_ref().expect("ok at split {i}");
        assert_eq!(
            resp["candidates"][0]["content"]["parts"][0]["text"].as_str(),
            Some("A}"),
            "mismatch at split {i}"
        );
    }
}

#[test]
fn nested_objects_in_function_call_args_count_braces_correctly() {
    let body = br#"[{"candidates":[{"content":{"role":"model","parts":[{"functionCall":{"name":"f","args":{"a":{"b":1}}}}]}}]}]"#;
    let out = feed_one_byte_at_a_time(body);
    assert_eq!(out.len(), 1, "{out:?}");
    let resp = out[0].as_ref().expect("ok");
    let fc = &resp["candidates"][0]["content"]["parts"][0]["functionCall"];
    assert_eq!(fc["name"], "f");
    assert_eq!(fc["args"].to_string(), r#"{"a":{"b":1}}"#);
}


#[test]
fn tolerates_no_whitespace_compact_array() {
    let body = br#"[{"candidates":[]},{"candidates":[]}]"#;
    let out = feed_whole(body);
    assert_eq!(out.len(), 2);
    assert!(out[0].is_ok() && out[1].is_ok());
}

#[test]
fn tolerates_lots_of_whitespace_between_objects() {
    let body = b"[\n\n\t  {\"candidates\":[]}\n  ,\r\n\n  {\"candidates\":[]}  \n  ]\n";
    let out = feed_whole(body);
    assert_eq!(out.len(), 2);
}

#[test]
fn ignores_trailing_newline_after_closing_bracket() {
    let body = b"[{\"candidates\":[]}]\n\n";
    let out = feed_whole(body);
    assert_eq!(out.len(), 1);
    assert!(out[0].is_ok());
}


#[test]
fn malformed_first_byte_yields_decode_error() {
    let out = feed_whole(b"oops");
    assert_eq!(out.len(), 1);
    let err = out[0].as_ref().expect_err("expected decode error");
    assert!(matches!(err, StreamError::Decode(_)));
}

#[test]
fn truncated_mid_object_yields_decode_error_on_finalize() {
    let body = br#"[{"candidates":[{"content":{"role":"model""#;
    let out = feed_whole(body);
    assert_eq!(out.len(), 1);
    let err = out[0].as_ref().expect_err("expected decode error");
    assert!(matches!(err, StreamError::Decode(msg) if msg.contains("ended mid-object")));
}

#[test]
fn truncated_mid_string_yields_decode_error_on_finalize() {
    let body = br#"[{"candidates":"unterminat"#;
    let out = feed_whole(body);
    assert_eq!(out.len(), 1);
    assert!(matches!(&out[0], Err(StreamError::Decode(_))));
}

#[test]
fn truncated_after_open_bracket_is_graceful() {
    let out = feed_whole(b"[");
    assert!(out.is_empty(), "expected silent EOF, got {out:?}");
}

#[test]
fn truncated_between_objects_is_graceful() {
    let body = br#"[{"candidates":[]},"#;
    let out = feed_whole(body);
    assert_eq!(out.len(), 1, "{out:?}");
    assert!(out[0].is_ok());
}

#[test]
fn object_of_another_shape_is_framed_like_any_other() {
    let body = br#"[{"candidates":[]},{"candidates":"not-an-array"},{"candidates":[]}]"#;
    let out = feed_whole(body);
    assert_eq!(out.len(), 3);
    assert!(out[0].is_ok());
    assert_eq!(out[1].as_ref().unwrap()["candidates"], "not-an-array");
    assert!(out[2].is_ok());
}

#[test]
fn stray_byte_between_objects_is_an_error() {
    let out = feed_whole(br#"[{"a":1};{"a":2}]"#);
    assert_eq!(out.len(), 3);
    assert_eq!(
        out[1],
        Err(StreamError::Decode(
            "unexpected byte 0x3b between Gemini stream objects".to_owned()
        ))
    );
    assert_eq!(
        feed_whole(b"oops")[0],
        Err(StreamError::Decode(
            "expected `[` at start of Gemini stream, got byte 0x6f".to_owned()
        ))
    );
}
