//! What calls give back, whatever they are called with.
use vstd::prelude::*;

use crate::anthropic::request::{self, messages_body};
use crate::anthropic::response::{self, event_events, event_state};
use crate::anthropic::wire::{IncomingEvent, IncomingUsage};
use crate::anthropic::AnthropicProvider;
use crate::canonical::{BackendTarget, CanonicalRequest, FrontendKind};
use crate::deepseek::request::stripped;
use crate::deepseek::DeepseekProvider;
use crate::error::{remodelled, ProviderError};
use crate::gemini::endpoint::{streaming_url, unary_url};
use crate::gemini::request::content_request;
use crate::gemini::stream::undecodable;
use crate::gemini::wire::{request_tree, GenerateContentRequest};
use crate::gemini::GeminiProvider;
use crate::github_copilot::auth::{poll_step, DeviceGrant, PollStep};
use crate::github_copilot::credential_store::StoredCredentials;
use crate::github_copilot::models::plan_list_models;
use crate::github_copilot::token_manager::{exchange_failure, plan_exchange, CopilotToken};
use crate::github_copilot::{reply_step, EditorIdentity, ReplyStep};
use crate::glm::request::switched;
use crate::glm::GlmProvider;
use crate::headers::header_texts;
use crate::json::{parsed_text, u32_member, u64_member, Json, Tree};
use crate::media::{base64_text, to_data_uri};
use crate::oai_chat_wire::canonical_to_chat::{self, chat_body};
use crate::oai_chat_wire::chat_sse_parser::{chunk_fits, fresh, ParserState};
use crate::openai_compatible::parse_stream::{self, chunk_events};
use crate::openai_compatible::reply_laws::body_is_the_chat_body;
use crate::openai_compatible::responses_api::encode_request::{self as responses, responses_body};
use crate::openai_compatible::responses_api::parse_stream::{
    self as responses_stream, ResponsesState,
};
use crate::openai_compatible::{encode_request, OpenAiCompatibleProvider};
use crate::stream::{events, Event, StopReason, StreamError, StreamEvent, Usage};
use crate::text::{is_blank, is_white, without_trailing_slashes};
use crate::upstream::{is_success, proxied_content_type, upstream_failure, Outgoing};

verus! {

// ---------------------------------------------------------------------------
// Requests
// ---------------------------------------------------------------------------

/// Each service of an OpenAI-compatible provider is called under its base,
/// whatever slashes end this.
pub proof fn openai_services_are_under_the_base(
    provider: OpenAiCompatibleProvider,
    chat: String,
    responses: String,
    models: String,
)
    requires
        call_ensures(OpenAiCompatibleProvider::chat_url, (&provider,), chat),
        call_ensures(OpenAiCompatibleProvider::responses_url, (&provider,), responses),
        call_ensures(OpenAiCompatibleProvider::models_url, (&provider,), models),
    ensures
        ({
            let base = without_trailing_slashes(provider.settings.base_url@);
            &&& chat@ == base + "/v1/chat/completions"@
            &&& responses@ == base + "/v1/responses"@
            &&& models@ == base + "/v1/models"@
        }),
{
}

/// The services of the other providers are called under their bases.
pub proof fn services_are_under_the_base(
    anthropic: AnthropicProvider,
    deepseek: DeepseekProvider,
    glm: GlmProvider,
    messages: String,
    chats: (String, String),
    models: (String, String),
)
    requires
        call_ensures(AnthropicProvider::messages_url, (&anthropic,), messages),
        call_ensures(DeepseekProvider::chat_url, (&deepseek,), chats.0),
        call_ensures(DeepseekProvider::models_url, (&deepseek,), models.0),
        call_ensures(GlmProvider::chat_url, (&glm,), chats.1),
        call_ensures(GlmProvider::models_url, (&glm,), models.1),
    ensures
        messages@ == without_trailing_slashes(anthropic.settings.base_url@) + "/v1/messages"@,
        chats.0@ == without_trailing_slashes(deepseek.settings.base_url@) + "/chat/completions"@,
        models.0@ == without_trailing_slashes(deepseek.settings.base_url@) + "/models"@,
        chats.1@ == without_trailing_slashes(glm.settings.base_url@) + "/chat/completions"@,
        models.1@ == without_trailing_slashes(glm.settings.base_url@) + "/models"@,
{
}

/// A method of a model is called under the base.
pub proof fn methods_are_under_the_model(base: &str, model: &str, streaming: String, unary: String)
    requires
        call_ensures(streaming_url, (base, model), streaming),
        call_ensures(unary_url, (base, model), unary),
    ensures
        ({
            let start = without_trailing_slashes(base@) + "/models/"@ + model@;
            &&& streaming@ == start + ":streamGenerateContent"@
            &&& unary@ == start + ":generateContent"@
        }),
{
}

/// Whether the headers of a request are those of a first list and then those of
/// a second one.
pub open spec fn headers_are(
    sent: Seq<(String, String)>,
    first: Seq<(Seq<char>, Seq<char>)>,
    then: Seq<(String, String)>,
) -> bool {
    &&& sent.len() == first.len() + then.len()
    &&& forall|i: int|
        0 <= i < first.len() ==> (#[trigger] first[i]).0 == sent[i].0@ && first[i].1 == sent[i].1@
    &&& forall|i: int|
        0 <= i < then.len() ==> (#[trigger] then[i]).0@ == sent[first.len() + i].0@ && then[i].1@
            == sent[first.len() + i].1@
}

/// Whether a request goes to a URL, with an optional key of the caller.
pub open spec fn goes_to<B>(out: Outgoing<B>, url: Seq<char>, key: Option<String>) -> bool {
    &&& out.url@ == url
    &&& out.bearer is Some <==> key is Some
    &&& key is Some ==> out.bearer->0@ == key->0@
}

proof fn lemma_headers(
    sent: Seq<(String, String)>,
    first: Seq<(Seq<char>, Seq<char>)>,
    then: Seq<(String, String)>,
)
    requires
        header_texts(sent) == first + header_texts(then),
    ensures
        headers_are(sent, first, then),
{
    assert(sent.len() == header_texts(sent).len());
    assert forall|i: int| 0 <= i < first.len() implies (#[trigger] first[i]).0 == sent[i].0@
        && first[i].1 == sent[i].1@ by {
        assert(header_texts(sent)[i] == first[i]);
    }
    assert forall|i: int| 0 <= i < then.len() implies (#[trigger] then[i]).0@ == sent[first.len()
        + i].0@ && then[i].1@ == sent[first.len() + i].1@ by {
        assert(header_texts(sent)[first.len() + i] == header_texts(then)[i]);
    }
}

/// A chat request goes to the chat service with the provider's key: as JSON,
/// with the configured headers and then those of the route, and with the chat
/// body.
pub proof fn openai_completion_is_planned(
    provider: OpenAiCompatibleProvider,
    req: CanonicalRequest,
    target: BackendTarget,
    out: Outgoing<Json>,
)
    requires
        call_ensures(OpenAiCompatibleProvider::plan_completion, (&provider, &req, &target), out),
    ensures
        goes_to(
            out,
            without_trailing_slashes(provider.settings.base_url@) + "/v1/chat/completions"@,
            Some(provider.settings.api_key),
        ),
        headers_are(
            out.headers@,
            seq![("content-type"@, "application/json"@)],
            provider.settings.default_headers@ + req.resolved_policy.anthropic_headers@,
        ),
        out.body@ == chat_body(req, target, provider.settings.capabilities.accepts_xhigh),
{
    let first = seq![("content-type"@, "application/json"@)];
    let own = provider.settings.default_headers@;
    let then = own + req.resolved_policy.anthropic_headers@;
    assert(header_texts(then) =~= header_texts(own) + header_texts(
        req.resolved_policy.anthropic_headers@,
    ));
    assert(out.route().headers =~= first + header_texts(then));
    lemma_headers(out.headers@, first, then);
}

/// A Messages request goes to the Messages service without a bearer: with the
/// key, the version and the content type, the configured headers and then those
/// of the route, and with the Messages body.
pub proof fn messages_completion_is_planned(
    provider: AnthropicProvider,
    req: CanonicalRequest,
    target: BackendTarget,
    out: Outgoing<Json>,
)
    requires
        call_ensures(AnthropicProvider::plan_completion, (&provider, &req, &target), out),
    ensures
        goes_to(
            out,
            without_trailing_slashes(provider.settings.base_url@) + "/v1/messages"@,
            None,
        ),
        headers_are(
            out.headers@,
            seq![
                ("x-api-key"@, provider.settings.api_key@),
                ("anthropic-version"@, provider.anthropic_version@),
                ("content-type"@, "application/json"@),
            ],
            provider.settings.default_headers@ + req.resolved_policy.anthropic_headers@,
        ),
        out.body@ == messages_body(req, target),
{
    let first = seq![
        ("x-api-key"@, provider.settings.api_key@),
        ("anthropic-version"@, provider.anthropic_version@),
        ("content-type"@, "application/json"@),
    ];
    let own = provider.settings.default_headers@;
    let then = own + req.resolved_policy.anthropic_headers@;
    assert(header_texts(then) =~= header_texts(own) + header_texts(
        req.resolved_policy.anthropic_headers@,
    ));
    assert(out.route().headers =~= first + header_texts(then));
    lemma_headers(out.headers@, first, then);
}

/// A DeepSeek request goes to the chat service with the provider's key: as
/// JSON, with the configured headers, and with the chat body without markers.
pub proof fn deepseek_completion_is_planned(
    provider: DeepseekProvider,
    req: CanonicalRequest,
    target: BackendTarget,
    out: Outgoing<Json>,
)
    requires
        call_ensures(DeepseekProvider::plan_completion, (&provider, &req, &target), out),
    ensures
        goes_to(
            out,
            without_trailing_slashes(provider.settings.base_url@) + "/chat/completions"@,
            Some(provider.settings.api_key),
        ),
        headers_are(
            out.headers@,
            seq![("content-type"@, "application/json"@)],
            provider.settings.default_headers@,
        ),
        out.body@ == stripped(chat_body(req, target, false)),
{
    let first = seq![("content-type"@, "application/json"@)];
    let own = provider.settings.default_headers@;
    assert(out.route().headers =~= first + header_texts(own));
    lemma_headers(out.headers@, first, own);
}

/// A GLM request goes to the chat service with the provider's key: as JSON,
/// with the configured headers, and with the chat body whose effort is a switch.
pub proof fn glm_completion_is_planned(
    provider: GlmProvider,
    req: CanonicalRequest,
    target: BackendTarget,
    out: Outgoing<Json>,
)
    requires
        call_ensures(GlmProvider::plan_completion, (&provider, &req, &target), out),
    ensures
        goes_to(
            out,
            without_trailing_slashes(provider.settings.base_url@) + "/chat/completions"@,
            Some(provider.settings.api_key),
        ),
        headers_are(
            out.headers@,
            seq![("content-type"@, "application/json"@)],
            provider.settings.default_headers@,
        ),
        out.body@ == switched(
            chat_body(req, target, provider.settings.capabilities.accepts_xhigh),
            req.resolved_policy.reasoning_effort,
        ),
{
    let first = seq![("content-type"@, "application/json"@)];
    let own = provider.settings.default_headers@;
    assert(out.route().headers =~= first + header_texts(own));
    lemma_headers(out.headers@, first, own);
}

/// A Generate Content request goes to the method of the model that streams, or
/// to the one that does not, as it asks: as JSON, with the configured headers,
/// and with its own body.
pub proof fn gemini_completion_is_planned(
    provider: GeminiProvider,
    req: CanonicalRequest,
    target: BackendTarget,
    out: Outgoing<Json>,
)
    requires
        call_ensures(GeminiProvider::plan_completion, (&provider, &req, &target), out),
    ensures
        ({
            let start = without_trailing_slashes(provider.settings.base_url@) + "/models/"@
                + target.model@;
            &&& req.stream ==> goes_to(out, start + ":streamGenerateContent"@, None)
            &&& !req.stream ==> goes_to(out, start + ":generateContent"@, None)
        }),
        headers_are(
            out.headers@,
            seq![("content-type"@, "application/json"@)],
            provider.settings.default_headers@,
        ),
        out.body@ == request_tree(content_request(req)),
{
    let first = seq![("content-type"@, "application/json"@)];
    let own = provider.settings.default_headers@;
    assert(out.route().headers =~= first + header_texts(own));
    lemma_headers(out.headers@, first, own);
}

/// A Responses body is sent on as it came, but for the model; a body of another
/// dialect is not sent on. What cannot be sent on is a complaint.
pub proof fn responses_proxy_is_planned(
    provider: OpenAiCompatibleProvider,
    body: &[u8],
    target: BackendTarget,
    kind: FrontendKind,
    result: Result<Option<Outgoing<Vec<u8>>>, ProviderError>,
)
    requires
        call_ensures(
            OpenAiCompatibleProvider::plan_proxy,
            (&provider, body, &target, kind),
            result,
        ),
    ensures
        kind != FrontendKind::OpenAiResponses ==> result is Ok && result->Ok_0 is None,
        kind == FrontendKind::OpenAiResponses ==> match remodelled(
            body@,
            target.model@,
            "Responses request body must be a JSON object"@,
        ) {
            Ok(bytes) => {
                &&& result is Ok
                &&& result->Ok_0 is Some
                &&& result->Ok_0->0.body@ == bytes
                &&& goes_to(
                    result->Ok_0->0,
                    without_trailing_slashes(provider.settings.base_url@) + "/v1/responses"@,
                    Some(provider.settings.api_key),
                )
            },
            Err(message) => result is Err && result->Err_0 is Decode && result->Err_0->Decode_0@
                == message,
        },
{
}

/// The models of Copilot are asked for under the token's base with the token,
/// and with the headers by which the client presents itself.
pub proof fn listing_is_planned(token: CopilotToken, identity: EditorIdentity, out: Outgoing<()>)
    requires
        call_ensures(plan_list_models, (&token, &identity), out),
    ensures
        goes_to(
            out,
            without_trailing_slashes(token.api_base@) + "/models"@,
            Some(token.token),
        ),
        headers_are(
            out.headers@,
            seq![
                ("user-agent"@, identity.user_agent@),
                ("editor-version"@, identity.editor_version@),
                ("editor-plugin-version"@, identity.editor_plugin_version@),
                ("copilot-integration-id"@, identity.copilot_integration_id@),
            ],
            Seq::empty(),
        ),
{
    let first = out.route().headers;
    let none = Seq::<(String, String)>::empty();
    assert(first =~= first + header_texts(none));
    lemma_headers(out.headers@, first, none);
}

/// Credentials are exchanged under the base, and shown as a token.
pub proof fn exchange_is_planned(
    creds: StoredCredentials,
    identity: EditorIdentity,
    base: &str,
    out: Outgoing<()>,
)
    requires
        call_ensures(plan_exchange, (&creds, &identity, base), out),
    ensures
        goes_to(out, without_trailing_slashes(base@) + "/copilot_internal/v2/token"@, None),
        headers_are(
            out.headers@,
            seq![
                ("authorization"@, "token "@ + creds.github_oauth_token@),
                ("user-agent"@, identity.user_agent@),
                ("editor-version"@, identity.editor_version@),
                ("accept"@, "application/json"@),
            ],
            Seq::empty(),
        ),
{
    let first = out.route().headers;
    let none = Seq::<(String, String)>::empty();
    assert(first =~= first + header_texts(none));
    lemma_headers(out.headers@, first, none);
}

// ---------------------------------------------------------------------------
// Replies
// ---------------------------------------------------------------------------

/// The statuses from 200 below 300 are successes, and no others. A failure has
/// its status and what was read of its body.
pub proof fn failures_have_their_status(
    status: u16,
    body: Option<String>,
    success: bool,
    error: ProviderError,
)
    requires
        call_ensures(is_success, (status,), success),
        call_ensures(upstream_failure, (status, body), error),
    ensures
        success <==> status as int / 100 == 2,
        error is Upstream,
        error->status == status,
        error->body@ == (match body {
            Some(b) => b@,
            None => "<unreadable>"@,
        }),
{
}

/// A proxied reply keeps its content type, and is an event stream where it has
/// none.
pub proof fn content_types_are_kept(content_type: Option<String>, text: String)
    requires
        call_ensures(proxied_content_type, (content_type,), text),
    ensures
        content_type is Some ==> text@ == content_type->0@,
        content_type is None ==> text@ == "text/event-stream"@,
{
}

/// A stream object that cannot be decoded is told as such.
pub proof fn undecodable_objects_are_told(message: &str, error: StreamError)
    requires
        call_ensures(undecodable, (message,), error),
    ensures
        error is Decode,
        error->Decode_0@ == "failed to decode Gemini stream object: "@ + message@,
{
}

/// A device grant has the codes, the page and the interval of the reply, with
/// the documented values for what is missing. Only the code of the device must
/// be there.
pub proof fn device_grants_are_read(reply: Json, result: Result<DeviceGrant, ProviderError>)
    requires
        call_ensures(DeviceGrant::from_reply, (&reply,), result),
    ensures
        match reply@.get("device_code"@) {
            Some(Tree::Text(code)) => {
                &&& result is Ok
                &&& result->Ok_0.device_code@ == code
                &&& result->Ok_0.user_code@ == (match reply@.get("user_code"@) {
                    Some(Tree::Text(text)) => text,
                    _ => "???"@,
                })
                &&& result->Ok_0.verification_uri@ == (match reply@.get("verification_uri"@) {
                    Some(Tree::Text(text)) => text,
                    _ => "https://github.com/login/device"@,
                })
                &&& reply@.get("interval"@) is None ==> result->Ok_0.interval_secs == 5
                &&& u64_member(reply@, "interval"@) is Some
                    ==> result->Ok_0.interval_secs == u64_member(
                    reply@,
                    "interval"@,
                )->0
            },
            _ => result is Err && result->Err_0 is Decode && result->Err_0->Decode_0@
                == "missing device_code"@,
        },
{
}

/// A poll that brings a token ends with it; one that is not decided goes on; a
/// refusal of the user ends it; and any other error fails with it.
pub proof fn polls_go_on_until_decided(reply: Json, step: PollStep)
    requires
        call_ensures(poll_step, (&reply,), step),
    ensures
        match reply@.get("access_token"@) {
            Some(Tree::Text(token)) => step is Authorized && step->Authorized_0@ == token,
            _ => match reply@.get("error"@) {
                Some(Tree::Text(e)) => {
                    &&& e == "authorization_pending"@ || e == "slow_down"@ ==> step is Wait
                    &&& e == "access_denied"@ ==> step is Declined
                    &&& e != "authorization_pending"@ && e != "slow_down"@ && e
                        != "access_denied"@ ==> {
                        &&& step is Failed
                        &&& step->Failed_0 is Upstream
                        &&& step->Failed_0->status == 400
                        &&& step->Failed_0->body@ == "device flow error: "@ + e
                    }
                },
                _ => step is Wait,
            },
        },
{
    crate::github_copilot::laws::polls_are_read(reply@);
}

/// A success is read; an unauthorized request forgets the token; and any other
/// failure has its status and body. So it is with an exchange.
pub proof fn unauthorized_replies_forget_the_token(
    status: u16,
    body: String,
    step: ReplyStep,
    error: Option<ProviderError>,
)
    requires
        call_ensures(reply_step, (status, body), step),
        call_ensures(exchange_failure, (status, body), error),
    ensures
        step is Read <==> status as int / 100 == 2,
        status == 401 ==> {
            &&& step is ForgetToken
            &&& step->ForgetToken_0 is Upstream
            &&& step->ForgetToken_0->status == 401
            &&& step->ForgetToken_0->body@ == "Copilot token expired, invalidated – retry"@
        },
        status as int / 100 != 2 && status != 401 ==> {
            &&& step is Fail
            &&& step->Fail_0 is Upstream
            &&& step->Fail_0->status == status
            &&& step->Fail_0->body@ == body@
        },
        error is None <==> status as int / 100 == 2,
        error is Some ==> {
            &&& error->0 is Upstream
            &&& error->0->status == status
            &&& error->0->body@ == (if status == 401 {
                "unauthorized – re-run `copilot login`"@
            } else {
                body@
            })
        },
{
}

// ---------------------------------------------------------------------------
// Bodies
// ---------------------------------------------------------------------------

/// Whether a member is the value that was given, and missing where none was.
pub open spec fn is_given(member: Option<Tree>, given: Option<Json>) -> bool {
    match given {
        Some(value) => member == Some(value@),
        None => member is None,
    }
}

/// Each builder puts the model of the route, the sampling options and whether to
/// stream into its body under their own names.
pub proof fn built_bodies_have_the_options(
    req: CanonicalRequest,
    target: BackendTarget,
    accepts_xhigh: bool,
    chat: Json,
    encoded: Json,
    messages: Json,
)
    requires
        call_ensures(canonical_to_chat::build, (&req, &target, accepts_xhigh), chat),
        call_ensures(encode_request::build, (&req, &target), encoded),
        call_ensures(request::build, (&req, &target), messages),
    ensures
        forall|body: Json|
            body == chat || body == encoded || body == messages ==> {
                &&& (#[trigger] body@).get("model"@) == Some(Tree::Text(target.model@))
                &&& is_given(body@.get("temperature"@), req.generation.temperature)
                &&& is_given(body@.get("top_p"@), req.generation.top_p)
                &&& body@.get("stream"@) == Some(Tree::Bool(req.stream))
            },
{
    crate::oai_chat_wire::request_laws::options_are_read_back(req, target, accepts_xhigh);
    crate::anthropic::request_laws::options_are_read_back(req, target);
    assert(encoded@.get("model"@) == Some(Tree::Text(target.model@)) && is_given(
        encoded@.get("temperature"@),
        req.generation.temperature,
    ) && is_given(encoded@.get("top_p"@), req.generation.top_p) && encoded@.get("stream"@) == Some(
        Tree::Bool(req.stream),
    )) by {
        crate::oai_chat_wire::request_laws::options_are_read_back(req, target, false);
        reveal_strlit("reasoning_effort");
        reveal_strlit("messages");
        reveal_strlit("model");
        reveal_strlit("temperature");
        reveal_strlit("top_p");
        reveal_strlit("stream");
        assert("reasoning_effort"@.len() == 16 && "messages"@.len() == 8 && "model"@.len() == 5
            && "temperature"@.len() == 11 && "top_p"@.len() == 5 && "stream"@.len() == 6);
        body_is_the_chat_body(req, target, "model"@);
        body_is_the_chat_body(req, target, "temperature"@);
        body_is_the_chat_body(req, target, "top_p"@);
        body_is_the_chat_body(req, target, "stream"@);
    }
}

/// The other builders give the bodies of their dialects.
pub proof fn built_bodies_are_of_their_dialects(
    req: CanonicalRequest,
    target: BackendTarget,
    accepts_xhigh: bool,
    deepseek: Json,
    glm: Json,
    responses_built: Json,
    content: GenerateContentRequest,
)
    requires
        call_ensures(crate::deepseek::request::build, (&req, &target), deepseek),
        call_ensures(crate::glm::request::build, (&req, &target, accepts_xhigh), glm),
        call_ensures(responses::build, (&req, &target), responses_built),
        call_ensures(crate::gemini::request::build, (&req, &target), content),
    ensures
        deepseek@ == stripped(chat_body(req, target, false)),
        glm@ == switched(
            chat_body(req, target, accepts_xhigh),
            req.resolved_policy.reasoning_effort,
        ),
        responses_built@ == responses_body(req, target),
        content@ == content_request(req),
{
}

/// A data URI has the media type and the payload.
pub proof fn data_uris_have_their_payload(media_type: &str, data: &[u8], uri: String)
    requires
        call_ensures(to_data_uri, (media_type, data), uri),
    ensures
        uri@ == "data:"@ + media_type@ + ";base64,"@ + base64_text(data@),
{
}

// ---------------------------------------------------------------------------
// Counts and reasons
// ---------------------------------------------------------------------------

/// The report of a Messages reply is taken over count by count.
pub proof fn messages_counts_are_taken_over(reported: IncomingUsage, usage: Usage)
    requires
        call_ensures(response::map_usage, (&reported,), usage),
    ensures
        usage.input_tokens == reported.input_tokens,
        usage.output_tokens == reported.output_tokens,
        usage.cache_creation_input_tokens == reported.cache_creation_input_tokens,
        usage.cache_read_input_tokens == reported.cache_read_input_tokens,
        usage.reasoning_tokens is None,
        !usage.estimated,
{
    assert(usage@.input_tokens == usage.input_tokens);
}

/// The report of a DeepSeek reply is taken over count by count.
pub proof fn deepseek_counts_are_taken_over(raw: Json, usage: Usage)
    requires
        call_ensures(crate::deepseek::usage::map_usage, (&raw,), usage),
    ensures
        usage.output_tokens == u32_member(raw@, "completion_tokens"@),
        usage.cache_read_input_tokens == u32_member(raw@, "prompt_cache_hit_tokens"@),
        u32_member(raw@, "prompt_cache_miss_tokens"@) is Some ==> usage.input_tokens
            == u32_member(raw@, "prompt_cache_miss_tokens"@),
        usage.provider_raw is Some ==> usage.provider_raw->0@ == raw@,
        usage.provider_raw is Some,
{
    crate::deepseek::reply_laws::usage_is_told(raw@);
    assert(usage@.input_tokens == usage.input_tokens);
}

/// Each vocabulary's reasons are read as what they mean, and a reason of
/// neither is kept.
pub proof fn reasons_are_read(reason: &str, chat: StopReason, messages: StopReason)
    requires
        call_ensures(StopReason::from_provider_string, (reason,), chat),
        call_ensures(StopReason::from_anthropic, (reason,), messages),
    ensures
        reason@ == "stop"@ ==> chat is EndTurn,
        reason@ == "length"@ ==> chat is MaxTokens,
        reason@ == "tool_calls"@ ==> chat is ToolUse,
        reason@ == "content_filter"@ ==> chat is ContentFilter,
        chat is Other ==> chat->Other_0@ == reason@,
        reason@ == "end_turn"@ ==> messages is EndTurn,
        reason@ == "max_tokens"@ ==> messages is MaxTokens,
        reason@ == "stop_sequence"@ ==> messages is StopSequence,
        reason@ == "tool_use"@ ==> messages is ToolUse,
        messages is Other ==> messages->Other_0@ == reason@,
{
    crate::stream::chat_reasons_have_their_meaning(reason@);
    crate::stream::messages_reasons_have_their_meaning(reason@);
}

// ---------------------------------------------------------------------------
// Decoding
// ---------------------------------------------------------------------------

/// The end mark of a chat stream ends the response. Anything else is read as a
/// chunk, and what is no JSON is told with its complaint.
pub proof fn chat_events_are_read(
    data: &str,
    chunk: Result<Vec<StreamEvent>, String>,
    event: Result<Vec<StreamEvent>, StreamError>,
)
    requires
        call_ensures(parse_stream::parse_chunk, (data,), chunk),
        call_ensures(parse_stream::handle_event, (data,), event),
    ensures
        match parsed_text(data@) {
            Ok(tree) => chunk is Ok && events(chunk->Ok_0@) == chunk_events(tree),
            Err(message) => chunk is Err && chunk->Err_0@ == "json parse: "@ + message,
        },
        data@ == "[DONE]"@ ==> event is Ok && events(event->Ok_0@) == seq![
            Event::ResponseStop { usage: None },
        ],
        data@ != "[DONE]"@ ==> match parsed_text(data@) {
            Ok(tree) => event is Ok && events(event->Ok_0@) == chunk_events(tree),
            Err(message) => event is Err && event->Err_0 is Decode && event->Err_0->Decode_0@
                == "json parse: "@ + message,
        },
{
}

/// A broken transport is an error of the stream if and only if the stream was
/// not over.
pub proof fn broken_transport_is_told(
    chat: ParserState,
    responses: ResponsesState,
    message: &str,
    a: Option<StreamError>,
    b: Option<StreamError>,
)
    requires
        call_ensures(ParserState::handle_transport_error, (&chat, message), a),
        call_ensures(ResponsesState::handle_transport_error, (&responses, message), b),
    ensures
        a is Some <==> !chat.stream_completed,
        a is Some ==> a->0 is Upstream && a->0->Upstream_0@ == message@,
        b is Some <==> !responses.stream_completed,
        b is Some ==> b->0 is Upstream && b->0->Upstream_0@ == message@,
{
}

/// A text is blank if and only if it holds white space alone.
pub proof fn blank_texts_are_white(s: &str, blank: bool, i: int)
    requires
        call_ensures(is_blank, (s,), blank),
    ensures
        blank && 0 <= i < s@.len() ==> {
            let n = s@[i] as u32;
            ||| n == 9 || n == 10 || n == 11 || n == 12 || n == 13 || n == 32
            ||| n == 133 || n == 160 || n == 5760
            ||| 8192 <= n <= 8202
            ||| n == 8232 || n == 8233 || n == 8239 || n == 8287 || n == 12288
        },
        !blank ==> exists|k: int|
            0 <= k < s@.len() && !({
                let n = (#[trigger] s@[k]) as u32;
                ||| n == 9 || n == 10 || n == 11 || n == 12 || n == 13 || n == 32
                ||| n == 133 || n == 160 || n == 5760
                ||| 8192 <= n <= 8202
                ||| n == 8232 || n == 8233 || n == 8239 || n == 8287 || n == 12288
            }),
{
    if !blank {
        let k = choose|k: int| 0 <= k < s@.len() && !is_white(#[trigger] s@[k]);
        assert(!is_white(s@[k]));
    }
}

/// The end mark of a stateful chat stream supplies what is missing of the
/// response. Anything else is read as a chunk, and what is no JSON is told with
/// its complaint and changes nothing.
pub proof fn chat_stream_events_are_read(
    parser: &mut ParserState,
    data: &str,
    result: Option<Result<Vec<StreamEvent>, StreamError>>,
)
    requires
        call_ensures(ParserState::handle_event, (parser, data), result),
    ensures
        data@ == "[DONE]"@ ==> {
            &&& result is Some
            &&& result->0 is Ok
            &&& events(result->0->Ok_0@) == fresh(old(parser)@).done().out
            &&& final(parser)@ == fresh(old(parser)@).done().state
        },
        data@ != "[DONE]"@ && parsed_text(data@) is Err ==> {
            &&& *final(parser) == *old(parser)
            &&& result is Some
            &&& result->0 is Err
            &&& result->0->Err_0 is Decode
            &&& result->0->Err_0->Decode_0@ == "json parse: "@ + parsed_text(data@)->Err_0
        },
        data@ != "[DONE]"@ && parsed_text(data@) is Ok && chunk_fits(parsed_text(data@)->Ok_0) ==> {
            let run = fresh(old(parser)@).chunk(parsed_text(data@)->Ok_0);
            &&& result is Some
            &&& result->0 is Ok
            &&& events(result->0->Ok_0@) == run.out
            &&& final(parser)@ == run.state
        },
{
}

/// So it is with a DeepSeek stream.
pub proof fn deepseek_stream_events_are_read(
    state: &mut crate::deepseek::response::StreamState,
    data: &str,
    result: Option<Result<Vec<StreamEvent>, StreamError>>,
)
    requires
        call_ensures(
            crate::deepseek::response::StreamState::handle_event,
            (state, data),
            result,
        ),
    ensures
        data@ == "[DONE]"@ ==> {
            let run = crate::deepseek::response::fresh(old(state)@).done();
            &&& result is Some
            &&& result->0 is Ok
            &&& events(result->0->Ok_0@) == run.out
            &&& final(state)@ == run.state
        },
        data@ != "[DONE]"@ && parsed_text(data@) is Err ==> {
            &&& *final(state) == *old(state)
            &&& result is Some
            &&& result->0 is Err
            &&& result->0->Err_0 is Decode
            &&& result->0->Err_0->Decode_0@ == "json parse: "@ + parsed_text(data@)->Err_0
        },
{
}

/// A Messages event without text says nothing; one that was decoded is told;
/// and one that could not be decoded is told with its complaint and changes
/// nothing.
pub proof fn messages_stream_events_are_read(
    state: &mut response::StreamState,
    data: &str,
    decoded: Result<IncomingEvent, String>,
    result: Result<Vec<StreamEvent>, String>,
)
    requires
        call_ensures(response::parse_chunk, (data, decoded, state), result),
    ensures
        data@.len() == 0 ==> {
            &&& final(state)@ == old(state)@
            &&& result is Ok
            &&& result->Ok_0@.len() == 0
        },
        (exists|i: int| 0 <= i < data@.len() && !is_white(#[trigger] data@[i])) ==> {
            &&& decoded is Ok ==> {
                &&& result is Ok
                &&& events(result->Ok_0@) == event_events(old(state)@, decoded->Ok_0)
                &&& final(state)@ == event_state(old(state)@, decoded->Ok_0)
            }
            &&& decoded is Err ==> {
                &&& final(state)@ == old(state)@
                &&& result is Err
                &&& result->Err_0@ == "anthropic SSE json parse: "@ + decoded->Err_0@
            }
        },
{
    if result is Ok {
        assert(events(result->Ok_0@).len() == result->Ok_0@.len());
    }
}

/// Of two reports each count becomes the larger one that was reported.
pub proof fn larger_counts_are_kept(acc: &mut Usage, more: Usage)
    requires
        call_ensures(response::merge_usage, (acc, &more), ()),
    ensures
        is_larger(final(acc).input_tokens, old(acc).input_tokens, more.input_tokens),
        is_larger(final(acc).output_tokens, old(acc).output_tokens, more.output_tokens),
        is_larger(
            final(acc).cache_creation_input_tokens,
            old(acc).cache_creation_input_tokens,
            more.cache_creation_input_tokens,
        ),
        is_larger(
            final(acc).cache_read_input_tokens,
            old(acc).cache_read_input_tokens,
            more.cache_read_input_tokens,
        ),
{
    assert(final(acc)@.input_tokens == final(acc).input_tokens);
    assert(old(acc)@.input_tokens == old(acc).input_tokens);
}

/// Whether a count is the larger of two that may be missing.
pub open spec fn is_larger(count: Option<u32>, a: Option<u32>, b: Option<u32>) -> bool {
    &&& count == a || count == b
    &&& a is Some ==> count is Some && count->0 >= a->0
    &&& b is Some ==> count is Some && count->0 >= b->0
}

/// A Responses event is told as what its payload says; one whose payload is no
/// JSON is told with its name and the complaint. Whether the stream is over is
/// noted first.
pub proof fn responses_stream_events_are_read(
    state: &mut ResponsesState,
    event_type: &str,
    data: &str,
    result: Result<Vec<StreamEvent>, StreamError>,
)
    requires
        call_ensures(ResponsesState::handle_event, (state, event_type, data), result),
    ensures
        ({
            let over = old(state).stream_completed || event_type@ == "response.completed"@
                || event_type@ == "response.failed"@;
            let before = ResponsesState { stream_completed: over, ..*old(state) };
            match parsed_text(data@) {
                Ok(tree) => {
                    &&& result is Ok
                    &&& events(result->Ok_0@) == responses_stream::event_events(
                        before,
                        event_type@,
                        tree,
                    )
                },
                Err(_) => *final(state) == before && result is Err && result->Err_0 is Decode,
            }
        }),
        final(state).stream_completed <==> old(state).stream_completed || event_type@
            == "response.completed"@ || event_type@ == "response.failed"@,
{
}

} // verus!
