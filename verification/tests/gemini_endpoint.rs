//! URLs of the Generate Content API.
use agent_shim_providers::gemini::endpoint::{streaming_url, unary_url};

const BASE: &str = "https://generativelanguage.googleapis.com/v1beta";

#[test]
fn streaming_url_format() {
    assert_eq!(
        streaming_url(BASE, "gemini-2.0-flash"),
        "https://generativelanguage.googleapis.com/v1beta/models/gemini-2.0-flash:streamGenerateContent"
    );
}

#[test]
fn unary_url_format() {
    assert_eq!(
        unary_url(BASE, "gemini-2.0-flash"),
        "https://generativelanguage.googleapis.com/v1beta/models/gemini-2.0-flash:generateContent"
    );
}

#[test]
fn streaming_url_trims_trailing_slash_from_base() {
    assert_eq!(
        streaming_url("https://x.example.com/v1beta/", "gemini-pro"),
        "https://x.example.com/v1beta/models/gemini-pro:streamGenerateContent"
    );
}

#[test]
fn unary_url_trims_trailing_slash_from_base() {
    assert_eq!(
        unary_url("https://x.example.com/v1beta/", "gemini-pro"),
        "https://x.example.com/v1beta/models/gemini-pro:generateContent"
    );
}

#[test]
fn streaming_url_does_not_append_alt_sse() {
    let url = streaming_url(BASE, "gemini-2.0-flash");
    assert!(!url.contains("alt=sse"), "URL must not opt into SSE: {url}");
    assert!(!url.contains('?'), "URL must not carry query params: {url}");
}

#[test]
fn model_name_passes_through_untouched() {
    let url = unary_url(BASE, "gemini-1.5-pro-002");
    assert!(url.ends_with("/models/gemini-1.5-pro-002:generateContent"));
}
