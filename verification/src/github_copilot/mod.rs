//! GitHub Copilot: OpenAI's wire formats behind short-lived tokens.
use vstd::prelude::*;
use vstd::string::*;

pub mod auth;
pub mod credential_store;
pub mod endpoint;
pub mod laws;
pub mod models;
pub mod token_manager;

use crate::canonical::{contains_text, BackendTarget, CanonicalRequest, FrontendKind};
use crate::error::{labelled, ProviderCapabilities, ProviderError};
use crate::headers::{add_header, header_texts, header_value, is_header_value};
use crate::json::{put, with_member, Json, Tree};
use crate::openai_compatible::encode_request;
use crate::openai_compatible::encode_request::encoded_request;
use crate::openai_compatible::responses_api;
use crate::openai_compatible::responses_api::encode_request::responses_body;
use crate::text::{join_url, texts, without_trailing_slashes};
use crate::upstream::{is_success, Outgoing, Route};
use token_manager::CopilotToken;

verus! {

/// How the client presents itself.
#[derive(Clone, Debug, PartialEq)]
pub struct EditorIdentity {
    pub user_agent: String,
    pub editor_version: String,
    pub editor_plugin_version: String,
    pub copilot_integration_id: String,
    pub openai_intent: String,
}

/// What Copilot supports: no images.
pub open spec fn copilot_capabilities() -> ProviderCapabilities {
    ProviderCapabilities {
        streaming: true,
        tool_use: true,
        vision: false,
        json_mode: true,
        accepts_xhigh: false,
    }
}

/// What Copilot supports.
pub fn capabilities() -> (capabilities: ProviderCapabilities)
    ensures
        capabilities == copilot_capabilities(),
{
    ProviderCapabilities {
        streaming: true,
        tool_use: true,
        vision: false,
        json_mode: true,
        accepts_xhigh: false,
    }
}

// ---------------------------------------------------------------------------
// Headers
// ---------------------------------------------------------------------------

/// The headers of a request, before they are checked.
pub open spec fn copilot_headers(
    token: Seq<char>,
    identity: EditorIdentity,
    request_id: Seq<char>,
    stream: bool,
) -> Seq<(Seq<char>, Seq<char>)> {
    let always = seq![
        ("authorization"@, "Bearer "@ + token),
        ("content-type"@, "application/json"@),
        ("user-agent"@, identity.user_agent@),
        ("editor-version"@, identity.editor_version@),
        ("editor-plugin-version"@, identity.editor_plugin_version@),
        ("copilot-integration-id"@, identity.copilot_integration_id@),
        ("openai-intent"@, identity.openai_intent@),
        ("x-request-id"@, request_id),
    ];
    if stream {
        always.push(("accept"@, "text/event-stream"@))
    } else {
        always
    }
}

/// The complaint about a header whose value is none.
pub open spec fn complaint(name: Seq<char>) -> Seq<char> {
    if name == "authorization"@ {
        "auth header: "@ + "failed to parse header value"@
    } else {
        "header "@ + name + ": "@ + "failed to parse header value"@
    }
}

/// The complaint about the first header whose value is none.
pub open spec fn first_complaint(headers: Seq<(Seq<char>, Seq<char>)>) -> Option<Seq<char>>
    decreases headers.len(),
{
    if headers.len() == 0 {
        None
    } else {
        match first_complaint(headers.drop_last()) {
            Some(text) => Some(text),
            None => if is_header_value(headers.last().1) {
                None
            } else {
                Some(complaint(headers.last().0))
            },
        }
    }
}

/// Builds the headers of a request. A value that no header can have is an
/// error.
pub fn build_copilot_headers(
    token: &CopilotToken,
    identity: &EditorIdentity,
    request_id: &str,
    stream: bool,
) -> (result: Result<Vec<(String, String)>, ProviderError>)
    ensures
        ({
            let wanted = copilot_headers(token.token@, *identity, request_id@, stream);
            match first_complaint(wanted) {
                None => match result {
                    Ok(headers) => header_texts(headers@) == wanted,
                    Err(_) => false,
                },
                Some(message) => match result {
                    Err(ProviderError::Encode(text)) => text@ == message,
                    _ => false,
                },
            }
        }),
{
    let mut headers: Vec<(String, String)> = Vec::new();
    assert(header_texts(headers@) =~= seq![]);
    let authorization = labelled("Bearer ", token.token.as_str());
    add_header(&mut headers, "authorization", authorization.as_str());
    add_header(&mut headers, "content-type", "application/json");
    add_header(&mut headers, "user-agent", identity.user_agent.as_str());
    add_header(&mut headers, "editor-version", identity.editor_version.as_str());
    add_header(&mut headers, "editor-plugin-version", identity.editor_plugin_version.as_str());
    add_header(&mut headers, "copilot-integration-id", identity.copilot_integration_id.as_str());
    add_header(&mut headers, "openai-intent", identity.openai_intent.as_str());
    add_header(&mut headers, "x-request-id", request_id);
    if stream {
        add_header(&mut headers, "accept", "text/event-stream");
    }
    assert(header_texts(headers@) =~= copilot_headers(
        token.token@,
        *identity,
        request_id@,
        stream,
    ));
    match check_values(&headers) {
        Some(message) => Err(ProviderError::Encode(message)),
        None => Ok(headers),
    }
}

fn check_values(headers: &Vec<(String, String)>) -> (message: Option<String>)
    ensures
        crate::json::opt_text(message) == first_complaint(header_texts(headers@)),
{
    let ghost all = header_texts(headers@);
    let mut i: usize = 0;
    while i < headers.len()
        invariant
            i <= headers@.len(),
            all == header_texts(headers@),
            first_complaint(all.take(i as int)) is None,
        decreases headers.len() - i,
    {
        proof {
            assert(all.take(i + 1).drop_last() =~= all.take(i as int));
            assert(all.take(i + 1).last() == (headers@[i as int].0@, headers@[i as int].1@));
        }
        if let Err(reason) = header_value(headers[i].1.as_str()) {
            proof {
                lemma_complaint_stays(all, i + 1);
            }
            let name = headers[i].0.as_str();
            let text = if crate::text::same_text(name, "authorization") {
                labelled("auth header: ", reason.as_str())
            } else {
                let mut text = labelled("header ", name);
                text.append(": ");
                text.append(reason.as_str());
                text
            };
            return Some(text);
        }
        i = i + 1;
    }
    assert(all.take(i as int) =~= all);
    None
}

proof fn lemma_complaint_stays(headers: Seq<(Seq<char>, Seq<char>)>, n: int)
    requires
        0 <= n <= headers.len(),
        first_complaint(headers.take(n)) is Some,
    ensures
        first_complaint(headers) == first_complaint(headers.take(n)),
    decreases headers.len() - n,
{
    if n == headers.len() {
        assert(headers.take(n) =~= headers);
    } else {
        assert(headers.take(n + 1).drop_last() =~= headers.take(n));
        lemma_complaint_stays(headers, n + 1);
    }
}

// ---------------------------------------------------------------------------
// Requests
// ---------------------------------------------------------------------------

/// Whether a request goes to the Responses API. What the model is known to
/// offer decides; where it offers both or neither, the dialect that the
/// request came in does.
pub open spec fn wants_responses(endpoints: Option<Seq<Seq<char>>>, frontend: FrontendKind) -> bool {
    let asked = frontend == FrontendKind::OpenAiResponses;
    match endpoints {
        Some(known) => if known.contains("/responses"@) != known.contains("/chat/completions"@) {
            known.contains("/responses"@)
        } else {
            asked
        },
        None => asked,
    }
}

/// The endpoints that a request's policy knows of.
pub open spec fn known_endpoints(req: CanonicalRequest) -> Option<Seq<Seq<char>>> {
    match req.resolved_policy.supported_endpoints {
        Some(known) => Some(texts(known@)),
        None => None,
    }
}

/// Whether a request goes to the Responses API.
pub fn use_responses(req: &CanonicalRequest) -> (responses: bool)
    ensures
        responses == wants_responses(known_endpoints(*req), req.frontend.kind),
{
    let asked = match req.frontend.kind {
        FrontendKind::OpenAiResponses => true,
        _ => false,
    };
    match &req.resolved_policy.supported_endpoints {
        Some(known) => {
            let responses = contains_text(known, "/responses");
            let chat = contains_text(known, "/chat/completions");
            if responses != chat {
                responses
            } else {
                asked
            }
        },
        None => asked,
    }
}

/// How the reply to a request is read.
#[derive(Clone, Copy, Debug, PartialEq, Eq, Structural)]
pub enum ReplyForm {
    ChatStream,
    ChatWhole,
    ResponsesStream,
}

/// A body that asks for a stream.
pub open spec fn streamed(body: Tree) -> Tree {
    match body {
        Tree::Object(m) => Tree::Object(with_member(m, "stream"@, Tree::Bool(true))),
        _ => body,
    }
}

/// The path, the body, the reply and whether it streams. The Responses API is
/// always asked for a stream.
pub open spec fn planned(req: CanonicalRequest, target: BackendTarget) -> (
    Seq<char>,
    Tree,
    ReplyForm,
    bool,
) {
    if wants_responses(known_endpoints(req), req.frontend.kind) {
        (
            "/v1/responses"@,
            streamed(responses_body(req, target)),
            ReplyForm::ResponsesStream,
            true,
        )
    } else if req.stream {
        ("/chat/completions"@, encoded_request(req, target), ReplyForm::ChatStream, true)
    } else {
        ("/chat/completions"@, encoded_request(req, target), ReplyForm::ChatWhole, false)
    }
}

/// Plans the request of a completion.
pub fn plan_completion(
    token: &CopilotToken,
    identity: &EditorIdentity,
    request_id: &str,
    req: &CanonicalRequest,
    target: &BackendTarget,
) -> (result: Result<(Outgoing<Json>, ReplyForm), ProviderError>)
    ensures
        ({
            let (path, body, form, stream) = planned(*req, *target);
            let headers = copilot_headers(token.token@, *identity, request_id@, stream);
            match first_complaint(headers) {
                None => match result {
                    Ok((out, reply)) => {
                        &&& reply == form
                        &&& out.body@ == body
                        &&& out.route() == (Route {
                            url: without_trailing_slashes(token.api_base@) + path,
                            bearer: None,
                            headers,
                        })
                    },
                    Err(_) => false,
                },
                Some(message) => match result {
                    Err(ProviderError::Encode(text)) => text@ == message,
                    _ => false,
                },
            }
        }),
{
    let responses = use_responses(req);
    let stream = responses || req.stream;
    let headers = match build_copilot_headers(token, identity, request_id, stream) {
        Ok(headers) => headers,
        Err(error) => {
            return Err(error);
        },
    };
    if responses {
        let body = ask_for_stream(responses_api::encode_request::build(req, target));
        let url = join_url(token.api_base.as_str(), "/v1/responses");
        return Ok((Outgoing { url, bearer: None, headers, body }, ReplyForm::ResponsesStream));
    }
    let body = encode_request::build(req, target);
    let url = join_url(token.api_base.as_str(), "/chat/completions");
    let form = if req.stream {
        ReplyForm::ChatStream
    } else {
        ReplyForm::ChatWhole
    };
    Ok((Outgoing { url, bearer: None, headers, body }, form))
}

fn ask_for_stream(body: Json) -> (out: Json)
    ensures
        out@ == streamed(body@),
{
    match body {
        Json::Object(entries) => {
            let mut entries = entries;
            put(&mut entries, "stream", Json::Bool(true));
            Json::Object(entries)
        },
        other => other,
    }
}

// ---------------------------------------------------------------------------
// Replies
// ---------------------------------------------------------------------------

/// What to do with a reply.
#[derive(Clone, Debug, PartialEq)]
pub enum ReplyStep {
    /// Read it.
    Read,
    /// Forget the token and fail.
    ForgetToken(ProviderError),
    /// Fail.
    Fail(ProviderError),
}

/// Decides what to do with a reply. `body` is read where it failed.
pub fn reply_step(status: u16, body: String) -> (step: ReplyStep)
    ensures
        match step {
            ReplyStep::Read => 200 <= status < 300,
            ReplyStep::ForgetToken(ProviderError::Upstream { status: s, body: text }) => {
                &&& status == 401
                &&& s == 401
                &&& text@ == "Copilot token expired, invalidated – retry"@
            },
            ReplyStep::Fail(ProviderError::Upstream { status: s, body: text }) => {
                &&& !(200 <= status < 300)
                &&& status != 401
                &&& s == status
                &&& text@ == body@
            },
            _ => false,
        },
{
    if status == 401 {
        ReplyStep::ForgetToken(
            ProviderError::Upstream {
                status: 401,
                body: "Copilot token expired, invalidated – retry".to_owned(),
            },
        )
    } else if is_success(status) {
        ReplyStep::Read
    } else {
        ReplyStep::Fail(ProviderError::Upstream { status, body })
    }
}

// ---------------------------------------------------------------------------
// Laws
// ---------------------------------------------------------------------------

/// A model that offers only the Responses API is asked there, and one that
/// offers only chat completions is asked there, whatever dialect the request
/// came in.
pub proof fn offer_decides_the_endpoint(known: Seq<Seq<char>>, frontend: FrontendKind)
    ensures
        known.contains("/responses"@) && !known.contains("/chat/completions"@)
            ==> wants_responses(Some(known), frontend),
        known.contains("/chat/completions"@) && !known.contains("/responses"@)
            ==> !wants_responses(Some(known), frontend),
{
}

/// A request to the Responses API always asks for a stream.
pub proof fn responses_requests_stream(req: CanonicalRequest, target: BackendTarget)
    requires
        wants_responses(known_endpoints(req), req.frontend.kind),
    ensures
        planned(req, target).1.get("stream"@) == Some(Tree::Bool(true)),
        planned(req, target).3,
{
    if let Tree::Object(m) = responses_body(req, target) {
        crate::json::set_member_is_read_back(m, "stream"@, Tree::Bool(true), "stream"@);
    }
}

} // verus!
