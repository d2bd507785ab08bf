//! Handing Messages requests through with another model.
use agent_shim_providers::anthropic::passthrough::{needs_no_json_escape, rewrite_model};

#[test]
fn rewrite_model_replaces_top_level_field() {
    let body = r#"{"model":"3-5-sonnet-20241022","messages":[]}"#;
    let rewritten = rewrite_model(body.as_bytes(), "opus-4-7").unwrap();
    let v: serde_json::Value = serde_json::from_slice(&rewritten).unwrap();
    assert_eq!(v["model"], "opus-4-7");
}

#[test]
fn rewrite_model_preserves_other_fields() {
    let body = r#"{"model":"3-5-sonnet-20241022","messages":[{"role":"user","content":"hi"}],"max_tokens":1024}"#;
    let rewritten = rewrite_model(body.as_bytes(), "opus-4-7").unwrap();
    let v: serde_json::Value = serde_json::from_slice(&rewritten).unwrap();
    assert_eq!(v["model"], "opus-4-7");
    assert_eq!(v["max_tokens"], 1024);
    assert_eq!(v["messages"][0]["role"], "user");
}

#[test]
fn rewrite_model_rejects_non_object_body() {
    let body = r#"["not","an","object"]"#;
    assert!(rewrite_model(body.as_bytes(), "opus-4-7").is_err());
}

#[test]
fn rewrite_model_handles_model_not_first() {
    let body = r#"{"max_tokens":1024,"model":"3-5-sonnet-20241022","messages":[]}"#;
    let rewritten = rewrite_model(body.as_bytes(), "opus-4-7").unwrap();
    let v: serde_json::Value = serde_json::from_slice(&rewritten).unwrap();
    assert_eq!(v["model"], "opus-4-7");
    assert_eq!(v["max_tokens"], 1024);
}

#[test]
fn rewrite_model_does_not_touch_nested_model_field() {
    let body = r#"{"model":"3-5-sonnet-20241022","metadata":{"model":"nested-should-not-change"}}"#;
    let rewritten = rewrite_model(body.as_bytes(), "opus-4-7").unwrap();
    let v: serde_json::Value = serde_json::from_slice(&rewritten).unwrap();
    assert_eq!(v["model"], "opus-4-7");
    assert_eq!(v["metadata"]["model"], "nested-should-not-change");
}

#[test]
fn rewrite_model_ignores_model_substring_inside_other_string() {
    let body =
        r#"{"system":"you are a model","model":"3-5-sonnet-20241022"}"#;
    let rewritten = rewrite_model(body.as_bytes(), "opus-4-7").unwrap();
    let v: serde_json::Value = serde_json::from_slice(&rewritten).unwrap();
    assert_eq!(v["model"], "opus-4-7");
    assert_eq!(v["system"], "you are a model");
}

#[test]
fn rewrite_model_handles_whitespace_around_colon() {
    let body = r#"{  "model"  :  "old"  ,  "max_tokens": 1024 }"#;
    let rewritten = rewrite_model(body.as_bytes(), "new").unwrap();
    let v: serde_json::Value = serde_json::from_slice(&rewritten).unwrap();
    assert_eq!(v["model"], "new");
    assert_eq!(v["max_tokens"], 1024);
}

#[test]
fn rewrite_model_handles_escaped_quotes_in_other_strings() {
    let body = r#"{"system":"He said \"hi\".","model":"old"}"#;
    let rewritten = rewrite_model(body.as_bytes(), "new").unwrap();
    let v: serde_json::Value = serde_json::from_slice(&rewritten).unwrap();
    assert_eq!(v["model"], "new");
    assert_eq!(v["system"], r#"He said "hi"."#);
}

#[test]
fn rewrite_model_inserts_when_field_absent() {
    let body = r#"{"messages":[]}"#;
    let rewritten = rewrite_model(body.as_bytes(), "new-model").unwrap();
    let v: serde_json::Value = serde_json::from_slice(&rewritten).unwrap();
    assert_eq!(v["model"], "new-model");
}

#[test]
fn rewrite_model_escapes_special_chars_via_slow_path() {
    let body = r#"{"model":"old"}"#;
    let rewritten = rewrite_model(body.as_bytes(), "weird\\name").unwrap();
    let v: serde_json::Value = serde_json::from_slice(&rewritten).unwrap();
    assert_eq!(v["model"], "weird\\name");
}

#[test]
fn needs_no_json_escape_recognises_common_model_names() {
    assert!(needs_no_json_escape("3-5-sonnet-20241022"));
    assert!(needs_no_json_escape("gpt-4o"));
    assert!(needs_no_json_escape("gemini-2.0-flash-exp"));
    assert!(!needs_no_json_escape("contains\"quote"));
    assert!(!needs_no_json_escape("contains\\backslash"));
    assert!(!needs_no_json_escape("contains\nnewline"));
}

#[test]
fn rewriting_twice_leaves_the_last_model() {
    let body = br#"{"a":[{"model":"x"}], "model" : "alias" ,"z":1}"#;
    let once = rewrite_model(body, "first").unwrap();
    let twice = rewrite_model(&once, "second").unwrap();
    assert_eq!(twice, br#"{"a":[{"model":"x"}], "model" : "second" ,"z":1}"#.to_vec());
    assert_eq!(twice, rewrite_model(body, "second").unwrap());
}
