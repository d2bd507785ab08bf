//! What Copilot's requests and replies say, against what they are made of.
use vstd::prelude::*;

use super::auth::{poll_reply, PollReply};
use super::endpoint::checked_base;
use super::models::{catalog, catalog_of, facts_of, item_texts};
use super::token_manager::{still_good, TokenModel};
use super::{
    complaint, copilot_headers, first_complaint, known_endpoints, planned, wants_responses,
    EditorIdentity, ReplyForm,
};
use crate::canonical::{BackendTarget, CanonicalRequest, FrontendKind};
use crate::headers::is_header_value;
use crate::json::{member_after_set, str_member, u32_member, Tree};
use crate::openai_compatible::encode_request::encoded_request;
use crate::openai_compatible::responses_api::encode_request::responses_body;
use crate::sorted_map::{
    found, in_order, inserted_value_is_found, insertion_keeps_other_names,
    insertion_keeps_the_order,
};
use crate::text::without_trailing_slashes;

verus! {

/// A member of what may be missing.
pub open spec fn inside(value: Option<Tree>, key: Seq<char>) -> Option<Tree> {
    match value {
        Some(v) => v.get(key),
        None => None,
    }
}

/// A truth value that a member says.
pub open spec fn truth(value: Option<Tree>, key: Seq<char>) -> Option<bool> {
    match inside(value, key) {
        Some(Tree::Bool(b)) => Some(b),
        _ => None,
    }
}

/// A count that a member says.
pub open spec fn amount(value: Option<Tree>, key: Seq<char>) -> Option<u32> {
    match value {
        Some(v) => u32_member(v, key),
        None => None,
    }
}

/// A text that a member says.
pub open spec fn words(value: Option<Tree>, key: Seq<char>) -> Option<Seq<char>> {
    match inside(value, key) {
        Some(Tree::Text(s)) => Some(s),
        _ => None,
    }
}

/// The texts of a list; one without texts counts as missing.
pub open spec fn listed(value: Option<Tree>, key: Seq<char>) -> Option<Seq<Seq<char>>> {
    match inside(value, key) {
        Some(Tree::Array(items)) => if item_texts(items).len() > 0 {
            Some(item_texts(items))
        } else {
            None
        },
        _ => None,
    }
}

/// Each fact of a model is read from its own member: the limits and the
/// abilities under `capabilities`, the endpoints and the version beside them. A
/// model that lists efforts reasons; of another, what it says of thinking holds,
/// or else what it says of adaptive thinking.
pub proof fn facts_are_read(item: Tree)
    ensures
        ({
            let f = facts_of(item);
            let c = item.get("capabilities"@);
            let limits = inside(c, "limits"@);
            let supports = inside(c, "supports"@);
            &&& f.context_window_tokens == amount(limits, "max_context_window_tokens"@)
            &&& f.max_output_tokens == amount(limits, "max_output_tokens"@)
            &&& f.family == words(c, "family"@)
            &&& f.version == words(Some(item), "version"@)
            &&& f.supported_endpoints == listed(Some(item), "supported_endpoints"@)
            &&& f.vision == truth(supports, "vision"@)
            &&& f.tool_calls == truth(supports, "tool_calls"@)
            &&& f.streaming == truth(supports, "streaming"@)
            &&& f.structured_outputs == truth(supports, "structured_outputs"@)
            &&& f.adaptive_thinking == truth(supports, "adaptive_thinking"@)
            &&& f.thinking_budget_min == amount(supports, "min_thinking_budget"@)
            &&& f.thinking_budget_max == amount(supports, "max_thinking_budget"@)
            &&& f.reasoning_effort_values == listed(supports, "reasoning_effort"@)
            &&& f.reasoning_effort == (if listed(supports, "reasoning_effort"@) is Some {
                Some(true)
            } else if truth(supports, "thinking"@) is Some {
                truth(supports, "thinking"@)
            } else {
                truth(supports, "adaptive_thinking"@)
            })
        }),
{
}

/// The texts of a list, in order; what is no text is left out.
pub proof fn texts_are_read_in_order(items: Seq<Tree>, item: Tree)
    ensures
        item_texts(Seq::empty()).len() == 0,
        item_texts(items.push(item)) == (match item {
            Tree::Text(s) => item_texts(items).push(s),
            _ => item_texts(items),
        }),
{
    assert(items.push(item).drop_last() =~= items);
}

proof fn lemma_catalog_in_order(items: Seq<Tree>)
    ensures
        in_order(catalog_of(items)),
    decreases items.len(),
{
    if items.len() > 0 {
        let before = catalog_of(items.drop_last());
        lemma_catalog_in_order(items.drop_last());
        if let Some(id) = str_member(items.last(), "id"@) {
            insertion_keeps_the_order(before, id, facts_of(items.last()));
        }
    }
}

/// One more item adds its model under its identifier, or replaces what was known
/// of it, and leaves every other model alone; an item without one adds nothing.
pub proof fn item_adds_its_model(items: Seq<Tree>, item: Tree, id: Seq<char>)
    ensures
        found(catalog_of(Seq::empty()), id) is None,
        found(catalog_of(items.push(item)), id) == (if item.get("id"@) == Some(Tree::Text(id)) {
            Some(facts_of(item))
        } else {
            found(catalog_of(items), id)
        }),
{
    assert(items.push(item).drop_last() =~= items);
    lemma_catalog_in_order(items);
    if let Some(name) = str_member(item, "id"@) {
        inserted_value_is_found(catalog_of(items), name, facts_of(item));
        if name != id {
            insertion_keeps_other_names(catalog_of(items), name, facts_of(item), id);
        }
    }
}

/// A reply is read as the catalog of its `data`. A reply that is no JSON, or
/// that has no such list, is a complaint.
pub proof fn reply_is_read_as_a_catalog(reply: Result<Tree, Seq<char>>)
    ensures
        match reply {
            Err(message) => catalog(reply) is Err && catalog(reply)->Err_0 == "models response: "@
                + message,
            Ok(json) => match json.get("data"@) {
                Some(Tree::Array(items)) => catalog(reply) is Ok && catalog(reply)->Ok_0
                    == catalog_of(items),
                _ => catalog(reply) is Err && catalog(reply)->Err_0
                    == "models response missing `data` array"@,
            },
        },
{
}

/// The headers of a request: the token as a bearer, the content type, how the
/// client presents itself, each under its own name, the identifier of the
/// request, and that a stream is accepted where one is asked for.
pub proof fn headers_say_who_asks(
    token: Seq<char>,
    identity: EditorIdentity,
    request_id: Seq<char>,
    stream: bool,
)
    ensures
        ({
            let h = copilot_headers(token, identity, request_id, stream);
            &&& h.len() == (if stream {
                9int
            } else {
                8int
            })
            &&& h[0] == ("authorization"@, "Bearer "@ + token)
            &&& h[1] == ("content-type"@, "application/json"@)
            &&& h[2] == ("user-agent"@, identity.user_agent@)
            &&& h[3] == ("editor-version"@, identity.editor_version@)
            &&& h[4] == ("editor-plugin-version"@, identity.editor_plugin_version@)
            &&& h[5] == ("copilot-integration-id"@, identity.copilot_integration_id@)
            &&& h[6] == ("openai-intent"@, identity.openai_intent@)
            &&& h[7] == ("x-request-id"@, request_id)
            &&& stream ==> h[8] == ("accept"@, "text/event-stream"@)
        }),
{
}

/// Whether a text can be the value of a header: it holds no control character
/// but the tab.
pub open spec fn can_be_sent(value: Seq<char>) -> bool {
    forall|i: int|
        0 <= i < value.len() ==> (#[trigger] value[i]) == '\t' || (value[i] as u32) >= 32
            && (value[i] as u32) != 127
}

/// There is a complaint if and only if a value cannot be sent, and it is about
/// the first such header.
pub proof fn first_bad_header_is_named(headers: Seq<(Seq<char>, Seq<char>)>)
    ensures
        match first_complaint(headers) {
            None => forall|i: int|
                0 <= i < headers.len() ==> can_be_sent((#[trigger] headers[i]).1),
            Some(text) => exists|k: int|
                {
                    &&& 0 <= k < headers.len()
                    &&& !can_be_sent((#[trigger] headers[k]).1)
                    &&& forall|i: int| 0 <= i < k ==> can_be_sent((#[trigger] headers[i]).1)
                    &&& text == (if headers[k].0 == "authorization"@ {
                        "auth header: "@ + "failed to parse header value"@
                    } else {
                        "header "@ + headers[k].0 + ": "@ + "failed to parse header value"@
                    })
                },
        },
    decreases headers.len(),
{
    if headers.len() > 0 {
        let before = headers.drop_last();
        first_bad_header_is_named(before);
        lemma_can_be_sent(headers.last().1);
        let last = headers.len() - 1;
        match first_complaint(before) {
            Some(text) => {
                let k = choose|k: int|
                    {
                        &&& 0 <= k < before.len()
                        &&& !can_be_sent((#[trigger] before[k]).1)
                        &&& forall|i: int| 0 <= i < k ==> can_be_sent((#[trigger] before[i]).1)
                        &&& text == (if before[k].0 == "authorization"@ {
                            "auth header: "@ + "failed to parse header value"@
                        } else {
                            "header "@ + before[k].0 + ": "@ + "failed to parse header value"@
                        })
                    };
                assert(headers[k] == before[k]);
                assert forall|i: int| 0 <= i < k implies can_be_sent(
                    (#[trigger] headers[i]).1,
                ) by {
                    assert(headers[i] == before[i]);
                }
            },
            None => {
                assert forall|i: int| 0 <= i < last implies can_be_sent(
                    (#[trigger] headers[i]).1,
                ) by {
                    assert(headers[i] == before[i]);
                }
                assert(headers[last] == headers.last());
                if first_complaint(headers) is Some {
                    assert(first_complaint(headers) == Some(complaint(headers[last].0)));
                }
            },
        }
    }
}

proof fn lemma_can_be_sent(value: Seq<char>)
    ensures
        can_be_sent(value) == is_header_value(value),
{
}

/// A request goes where its model is known to be offered; where that leaves the
/// choice, where its dialect belongs. To the Responses API it goes with the body
/// of that API, and always for a stream; to chat completions with a chat body,
/// for a stream or not as it asks.
pub proof fn request_goes_where_it_belongs(
    req: CanonicalRequest,
    target: BackendTarget,
    key: Seq<char>,
)
    ensures
        ({
            let responses = match req.resolved_policy.supported_endpoints {
                Some(known) => {
                    let names = crate::text::texts(known@);
                    let a = names.contains("/responses"@);
                    let b = names.contains("/chat/completions"@);
                    if a && !b {
                        true
                    } else if b && !a {
                        false
                    } else {
                        req.frontend.kind == FrontendKind::OpenAiResponses
                    }
                },
                None => req.frontend.kind == FrontendKind::OpenAiResponses,
            };
            let (path, body, form, stream) = planned(req, target);
            &&& responses == wants_responses(known_endpoints(req), req.frontend.kind)
            &&& if responses {
                &&& path == "/v1/responses"@
                &&& form == ReplyForm::ResponsesStream
                &&& stream
                &&& key != "stream"@ ==> body.get(key) == responses_body(req, target).get(key)
                &&& body.get("stream"@) == Some(Tree::Bool(true))
            } else {
                &&& path == "/chat/completions"@
                &&& body == encoded_request(req, target)
                &&& stream == req.stream
                &&& form == (if req.stream {
                    ReplyForm::ChatStream
                } else {
                    ReplyForm::ChatWhole
                })
            }
        }),
{
    broadcast use member_after_set;

}

/// What a poll was answered: a token wins; a wait is asked for where the user
/// has not decided, or where nothing is said; a refusal of the user is one; and
/// any other error is told.
pub proof fn polls_are_read(reply: Tree)
    ensures
        match reply.get("access_token"@) {
            Some(Tree::Text(token)) => poll_reply(reply) == PollReply::Token(token),
            _ => match reply.get("error"@) {
                Some(Tree::Text(e)) => {
                    &&& e == "authorization_pending"@ || e == "slow_down"@ ==> poll_reply(reply)
                        == PollReply::Pending
                    &&& e == "access_denied"@ ==> poll_reply(reply) == PollReply::Denied
                    &&& e != "authorization_pending"@ && e != "slow_down"@ && e
                        != "access_denied"@ ==> poll_reply(reply) == PollReply::Refused(e)
                },
                _ => poll_reply(reply) == PollReply::Pending,
            },
        },
{
    reveal_strlit("authorization_pending");
    reveal_strlit("slow_down");
    reveal_strlit("access_denied");
    assert("authorization_pending"@.len() == 21 && "slow_down"@.len() == 9
        && "access_denied"@.len() == 13);
}

/// An API base is accepted if and only if its scheme is HTTPS, and then comes
/// without trailing slashes; otherwise the complaint says what is wrong.
pub proof fn only_https_is_accepted(url: Seq<char>, scheme: Result<Seq<char>, Seq<char>>)
    ensures
        match checked_base(url, scheme) {
            Ok(base) => scheme is Ok && scheme->Ok_0 == "https"@ && base
                == without_trailing_slashes(url),
            Err(text) => match scheme {
                Ok(s) => s != "https"@ && text == "API base must use HTTPS, got: "@ + s,
                Err(message) => text == "invalid URL: "@ + message,
            },
        },
{
}

/// A token is good for as long as it has more than a minute left.
pub proof fn token_needs_a_minute(token: TokenModel, now: i64)
    ensures
        still_good(token, now) <==> now + 60 < token.expires_at_unix,
{
}

} // verus!
