//! What all providers send along with a request, what they support, and how
//! failures are told.
use vstd::prelude::*;

use crate::anthropic::{anthropic_capabilities, AnthropicProvider};
use crate::canonical::BackendTarget;
use crate::deepseek::deepseek_capabilities;
use crate::error::{remodelled, ProviderCapabilities, ProviderError};
use crate::gemini::endpoint::method_url;
use crate::gemini::gemini_capabilities;
use crate::github_copilot::copilot_capabilities;
use crate::glm::glm_capabilities;
use crate::headers::{
    configured, header_place, is_header_name, is_header_value, name_char, small, with_header,
};
use crate::json::{member_after_set, parsed_bytes, Tree};
use crate::openai_compatible::{json_headers, openai_capabilities, with_default_beta};
use crate::text::{decimal, without_trailing_slashes};
use crate::upstream::UpstreamSettings;

verus! {

/// What providers support: all of them stream and call tools; DeepSeek and
/// Copilot take no images; Anthropic has no JSON mode; and none takes the level
/// `xhigh`.
pub proof fn capabilities_are_as_documented()
    ensures
        forall|c: ProviderCapabilities|
            c == openai_capabilities() || c == anthropic_capabilities() || c
                == deepseek_capabilities() || c == glm_capabilities() || c == gemini_capabilities()
                || c == copilot_capabilities() ==> #[trigger] c.streaming && c.tool_use
                && !c.accepts_xhigh,
        openai_capabilities().vision && anthropic_capabilities().vision && glm_capabilities().vision
            && gemini_capabilities().vision,
        !deepseek_capabilities().vision && !copilot_capabilities().vision,
        openai_capabilities().json_mode && deepseek_capabilities().json_mode
            && glm_capabilities().json_mode && gemini_capabilities().json_mode
            && copilot_capabilities().json_mode,
        !anthropic_capabilities().json_mode,
{
}

/// A request says that its body is JSON, and then has the configured headers in
/// order. A route's beta comes last.
pub proof fn headers_are_sent_in_order(
    settings: UpstreamSettings,
    headers: Seq<(Seq<char>, Seq<char>)>,
    target: BackendTarget,
)
    ensures
        ({
            let h = json_headers(settings);
            &&& h.len() == settings.default_headers@.len() + 1
            &&& h[0] == ("content-type"@, "application/json"@)
            &&& forall|i: int|
                1 <= i < h.len() ==> (#[trigger] h[i]).0 == settings.default_headers@[i - 1].0@
                    && h[i].1 == settings.default_headers@[i - 1].1@
        }),
        match target.policy.default_anthropic_beta {
            Some(beta) => {
                let h = with_default_beta(headers, target);
                &&& h.len() == headers.len() + 1
                &&& h.drop_last() == headers
                &&& h.last() == ("anthropic-beta"@, beta@)
            },
            None => with_default_beta(headers, target) == headers,
        },
{
    if let Some(beta) = target.policy.default_anthropic_beta {
        assert(with_default_beta(headers, target).drop_last() =~= headers);
    }
}

/// A Messages request has the key and the version, says that its body is JSON,
/// and then has the configured headers in order.
pub proof fn messages_headers_are_sent_in_order(provider: AnthropicProvider)
    ensures
        ({
            let h = provider.message_headers();
            let defaults = provider.settings.default_headers@;
            &&& h.len() == defaults.len() + 3
            &&& h[0] == ("x-api-key"@, provider.settings.api_key@)
            &&& h[1] == ("anthropic-version"@, provider.anthropic_version@)
            &&& h[2] == ("content-type"@, "application/json"@)
            &&& forall|i: int|
                3 <= i < h.len() ==> (#[trigger] h[i]).0 == defaults[i - 3].0@ && h[i].1
                    == defaults[i - 3].1@
        }),
{
}

/// The URL of a method names the model behind the base.
pub proof fn method_urls_name_the_model(base: Seq<char>, model: Seq<char>, method: Seq<char>)
    ensures
        method_url(base, model, method) == without_trailing_slashes(base) + "/models/"@ + model
            + method,
{
}

proof fn lemma_place(headers: Seq<(Seq<char>, Seq<char>)>, name: Seq<char>, i: int)
    requires
        0 <= i <= headers.len(),
    ensures
        i <= header_place(headers, name, i) <= headers.len(),
        header_place(headers, name, i) < headers.len() ==> headers[header_place(
            headers,
            name,
            i,
        )].0 == name,
        forall|j: int|
            i <= j < header_place(headers, name, i) ==> (#[trigger] headers[j]).0 != name,
    decreases headers.len() - i,
{
    if i < headers.len() && headers[i].0 != name {
        lemma_place(headers, name, i + 1);
    }
}

/// Setting a header gives it its value: in the first place of its name, or at
/// the end where it is new. Every other place stays as it is.
pub proof fn set_header_has_its_value(
    headers: Seq<(Seq<char>, Seq<char>)>,
    name: Seq<char>,
    value: Seq<char>,
)
    ensures
        ({
            let after = with_header(headers, name, value);
            exists|k: int|
                {
                    &&& 0 <= k < after.len()
                    &&& #[trigger] after[k] == (name, value)
                    &&& forall|j: int| 0 <= j < k ==> (#[trigger] headers[j]).0 != name
                    &&& k < headers.len() ==> headers[k].0 == name && after.len() == headers.len()
                    &&& k == headers.len() ==> after.len() == headers.len() + 1
                    &&& k <= headers.len()
                    &&& forall|j: int|
                        0 <= j < headers.len() && j != k ==> #[trigger] after[j] == headers[j]
                }
        }),
{
    lemma_place(headers, name, 0);
    let k = header_place(headers, name, 0);
    assert(with_header(headers, name, value)[k] == (name, value));
}

/// Small letters stay, capitals become their small letters, and everything else
/// stays.
pub proof fn capitals_become_small(c: char)
    ensures
        'A' <= c <= 'Z' ==> small(c) as u32 == c as u32 + 32,
        !('A' <= c <= 'Z') ==> small(c) == c,
{
}

/// Whether a character is a delimiter, which no header name holds.
pub open spec fn is_delimiter(c: char) -> bool {
    c == '"' || c == '(' || c == ')' || c == ',' || c == '/' || c == ':' || c == ';' || c == '<'
        || c == '=' || c == '>' || c == '?' || c == '@' || c == '[' || c == '\\' || c == ']' || c
        == '{' || c == '}'
}

/// A header name is not empty and not too long, and holds visible ASCII but no
/// delimiter.
pub proof fn header_names_are_tokens(name: Seq<char>)
    ensures
        is_header_name(name) <==> 0 < name.len() < 0x1_0000 && forall|i: int|
            0 <= i < name.len() ==> '!' <= (#[trigger] name[i]) <= '~' && !is_delimiter(name[i]),
{
    let tokens = forall|i: int|
        0 <= i < name.len() ==> '!' <= (#[trigger] name[i]) <= '~' && !is_delimiter(name[i]);
    if is_header_name(name) {
        assert forall|i: int| 0 <= i < name.len() implies '!' <= (#[trigger] name[i]) <= '~'
            && !is_delimiter(name[i]) by {
            assert(name_char(name[i]));
        }
    }
    if 0 < name.len() < 0x1_0000 && tokens {
        assert forall|i: int| 0 <= i < name.len() implies name_char(#[trigger] name[i]) by {}
    }
}

/// A header value may hold a character if and only if this is a tab or no
/// control character, and two values may stand one behind the other.
pub proof fn header_values_have_no_controls(a: Seq<char>, b: Seq<char>, c: char)
    ensures
        is_header_value(Seq::empty()),
        is_header_value(seq![c]) <==> c == '\t' || (c as u32 > 31 && c as u32 != 127),
        is_header_value(a + b) <==> is_header_value(a) && is_header_value(b),
{
    assert(seq![c][0] == c);
    if is_header_value(a + b) {
        assert forall|i: int| 0 <= i < a.len() implies (#[trigger] a[i]) == '\t' || (a[i] as u32)
            >= 32 && (a[i] as u32) != 127 by {
            assert((a + b)[i] == a[i]);
        }
        assert forall|i: int| 0 <= i < b.len() implies (#[trigger] b[i]) == '\t' || (b[i] as u32)
            >= 32 && (b[i] as u32) != 127 by {
            assert((a + b)[a.len() + i] == b[i]);
        }
    }
}

/// One more configured header is set under its name in small letters. The first
/// name or value that cannot be sent is the complaint.
pub proof fn configured_headers_are_set_in_order(
    defaults: Seq<(Seq<char>, Seq<char>)>,
    name: Seq<char>,
    value: Seq<char>,
)
    ensures
        configured(Seq::empty()) is Ok,
        configured(Seq::empty())->Ok_0.len() == 0,
        match configured(defaults) {
            Err(message) => configured(defaults.push((name, value))) == configured(defaults),
            Ok(before) => match configured(defaults.push((name, value))) {
                Ok(after) => {
                    &&& is_header_name(name)
                    &&& is_header_value(value)
                    &&& after == with_header(
                        before,
                        Seq::new(name.len(), |i: int| small(name[i])),
                        value,
                    )
                },
                Err(text) => if !is_header_name(name) {
                    text == "invalid header name: "@ + "invalid HTTP header name"@
                } else {
                    &&& !is_header_value(value)
                    &&& text == "invalid header value: "@ + "failed to parse header value"@
                },
            },
        },
{
    assert(defaults.push((name, value)).drop_last() =~= defaults);
}

/// Each failure is told by its sort and what it says.
pub proof fn failures_are_told(error: ProviderError)
    ensures
        error.shown() == (match error {
            ProviderError::UnknownProvider(name) => "unknown provider: "@ + name@,
            ProviderError::Upstream { status, body } => "upstream error (status="@ + decimal(
                status as nat,
            ) + "): "@ + body@,
            ProviderError::Network(text) => "network error: "@ + text@,
            ProviderError::Decode(text) => "decode error: "@ + text@,
            ProviderError::Encode(text) => "encode error: "@ + text@,
            ProviderError::CapabilityMismatch(text) => "capability mismatch: "@ + text@,
        }),
{
}

/// A body that is parsed and printed again names the new model, and nothing else
/// of it changes: it is the text of an object in which the model reads as the
/// new one and every other member as before. What is no JSON, or no object, is a
/// complaint.
pub proof fn remodelled_body_names_the_model(
    body: Seq<u8>,
    model: Seq<char>,
    not_object: Seq<char>,
    key: Seq<char>,
)
    ensures
        match parsed_bytes(body) {
            Err(message) => remodelled(body, model, not_object) == Err::<Seq<u8>, Seq<char>>(
                message,
            ),
            Ok(Tree::Object(m)) => exists|after: Tree|
                {
                    &&& remodelled(body, model, not_object) == Ok::<Seq<u8>, Seq<char>>(
                        vstd::utf8::encode_utf8(#[trigger] after.compact()),
                    )
                    &&& after.get("model"@) == Some(Tree::Text(model))
                    &&& key != "model"@ ==> after.get(key) == Tree::Object(m).get(key)
                },
            Ok(_) => remodelled(body, model, not_object) == Err::<Seq<u8>, Seq<char>>(not_object),
        },
{
    broadcast use member_after_set;

    if let Ok(Tree::Object(m)) = parsed_bytes(body) {
        let after = Tree::Object(crate::json::with_member(m, "model"@, Tree::Text(model)));
        assert(after.get("model"@) == Some(Tree::Text(model)));
        assert(remodelled(body, model, not_object) == Ok::<Seq<u8>, Seq<char>>(
            vstd::utf8::encode_utf8(after.compact()),
        ));
    }
}

} // verus!
