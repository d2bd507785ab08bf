//! Providers that speak OpenAI's wire formats.
use vstd::prelude::*;

pub mod encode_request;
pub mod parse_stream;
pub mod parse_unary;
pub mod reply_laws;
pub mod responses_api;

use crate::canonical::{BackendTarget, CanonicalRequest, FrontendKind};
use crate::error::{remodelled, set_model, ProviderCapabilities, ProviderError};
use crate::headers::{add_header, add_headers, configured, header_texts};
use crate::json::Json;
use crate::oai_chat_wire::canonical_to_chat;
use crate::oai_chat_wire::canonical_to_chat::chat_body;
use crate::text::without_trailing_slashes;
use crate::upstream::{Outgoing, Route, UpstreamSettings};

verus! {

/// A provider that speaks OpenAI's chat completions, and the Responses API
/// for requests that already have its form.
#[derive(Debug, PartialEq)]
pub struct OpenAiCompatibleProvider {
    pub settings: UpstreamSettings,
}

/// What such a provider supports.
pub open spec fn openai_capabilities() -> ProviderCapabilities {
    ProviderCapabilities {
        streaming: true,
        tool_use: true,
        vision: true,
        json_mode: true,
        accepts_xhigh: false,
    }
}

/// The headers of every request: the content type, then the configured ones.
pub open spec fn json_headers(settings: UpstreamSettings) -> Seq<(Seq<char>, Seq<char>)> {
    seq![("content-type"@, "application/json"@)] + header_texts(settings.default_headers@)
}

/// The request headers with a route's default beta, if it has one.
pub open spec fn with_default_beta(
    headers: Seq<(Seq<char>, Seq<char>)>,
    target: BackendTarget,
) -> Seq<(Seq<char>, Seq<char>)> {
    match target.policy.default_anthropic_beta {
        Some(beta) => headers.push(("anthropic-beta"@, beta@)),
        None => headers,
    }
}

/// Starts a header list with the content type and the configured headers.
pub(crate) fn start_headers(settings: &UpstreamSettings) -> (headers: Vec<(String, String)>)
    ensures
        header_texts(headers@) == json_headers(*settings),
{
    let mut headers: Vec<(String, String)> = Vec::new();
    assert(header_texts(headers@) =~= seq![]);
    add_header(&mut headers, "content-type", "application/json");
    add_headers(&mut headers, &settings.default_headers);
    assert(header_texts(headers@) =~= json_headers(*settings));
    headers
}

/// Adds a route's default beta, if it has one.
pub(crate) fn add_default_beta(headers: &mut Vec<(String, String)>, target: &BackendTarget)
    ensures
        header_texts(final(headers)@) == with_default_beta(header_texts(old(headers)@), *target),
{
    if let Some(beta) = &target.policy.default_anthropic_beta {
        add_header(headers, "anthropic-beta", beta.as_str());
    }
}

impl OpenAiCompatibleProvider {
    /// A provider with checked settings.
    pub fn new(
        name: &str,
        base_url: &str,
        api_key: &str,
        default_headers: &Vec<(String, String)>,
        timeout_secs: u64,
    ) -> (result: Result<OpenAiCompatibleProvider, ProviderError>)
        ensures
            match configured(header_texts(default_headers@)) {
                Ok(headers) => match result {
                    Ok(provider) => {
                        &&& provider.settings.name@ == name@
                        &&& provider.settings.base_url@ == base_url@
                        &&& provider.settings.api_key@ == api_key@
                        &&& header_texts(provider.settings.default_headers@) == headers
                        &&& provider.settings.timeout_secs == timeout_secs
                        &&& provider.settings.capabilities == openai_capabilities()
                    },
                    Err(_) => false,
                },
                Err(message) => match result {
                    Err(ProviderError::Encode(text)) => text@ == message,
                    _ => false,
                },
            },
    {
        let capabilities = ProviderCapabilities {
            streaming: true,
            tool_use: true,
            vision: true,
            json_mode: true,
            accepts_xhigh: false,
        };
        match UpstreamSettings::new(
            name,
            base_url,
            api_key,
            default_headers,
            timeout_secs,
            capabilities,
        ) {
            Ok(settings) => Ok(OpenAiCompatibleProvider { settings }),
            Err(error) => Err(error),
        }
    }

    pub fn name(&self) -> (name: &str)
        ensures
            name@ == self.settings.name@,
    {
        self.settings.name.as_str()
    }

    pub fn capabilities(&self) -> (capabilities: &ProviderCapabilities)
        ensures
            *capabilities == self.settings.capabilities,
    {
        &self.settings.capabilities
    }

    /// The URL of chat completions.
    pub fn chat_url(&self) -> (url: String)
        ensures
            url@ == without_trailing_slashes(self.settings.base_url@) + "/v1/chat/completions"@,
    {
        self.settings.url("/v1/chat/completions")
    }

    /// The URL of the Responses API.
    pub fn responses_url(&self) -> (url: String)
        ensures
            url@ == without_trailing_slashes(self.settings.base_url@) + "/v1/responses"@,
    {
        self.settings.url("/v1/responses")
    }

    /// The URL of the model listing.
    pub fn models_url(&self) -> (url: String)
        ensures
            url@ == without_trailing_slashes(self.settings.base_url@) + "/v1/models"@,
    {
        self.settings.url("/v1/models")
    }

    /// Sets the `model` member of a Responses request body.
    pub fn rewrite_model(body: &[u8], upstream_model: &str) -> (result: Result<
        Vec<u8>,
        ProviderError,
    >)
        ensures
            match remodelled(
                body@,
                upstream_model@,
                "Responses request body must be a JSON object"@,
            ) {
                Ok(bytes) => match result {
                    Ok(out) => out@ == bytes,
                    Err(_) => false,
                },
                Err(message) => match result {
                    Err(ProviderError::Decode(text)) => text@ == message,
                    _ => false,
                },
            },
    {
        set_model(body, upstream_model, "Responses request body must be a JSON object")
    }

    /// Plans the request of a completion. The negotiation headers of the
    /// request's policy come last.
    pub fn plan_completion(&self, req: &CanonicalRequest, target: &BackendTarget) -> (out: Outgoing<
        Json,
    >)
        ensures
            out.route() == (Route {
                url: without_trailing_slashes(self.settings.base_url@) + "/v1/chat/completions"@,
                bearer: Some(self.settings.api_key@),
                headers: json_headers(self.settings) + header_texts(
                    req.resolved_policy.anthropic_headers@,
                ),
            }),
            out.body@ == chat_body(*req, *target, self.settings.capabilities.accepts_xhigh),
    {
        let mut headers = start_headers(&self.settings);
        add_headers(&mut headers, &req.resolved_policy.anthropic_headers);
        Outgoing {
            url: self.chat_url(),
            bearer: Some(self.settings.api_key.clone()),
            headers,
            body: canonical_to_chat::build(
                req,
                target,
                self.settings.capabilities.accepts_xhigh,
            ),
        }
    }

    /// Plans the request that hands a body through. Only requests that have
    /// the form of the Responses API are handed through; for others there is
    /// no plan.
    pub fn plan_proxy(
        &self,
        body: &[u8],
        target: &BackendTarget,
        frontend_kind: FrontendKind,
    ) -> (result: Result<Option<Outgoing<Vec<u8>>>, ProviderError>)
        ensures
            if frontend_kind != FrontendKind::OpenAiResponses {
                result == Ok::<Option<Outgoing<Vec<u8>>>, ProviderError>(None)
            } else {
                match remodelled(
                    body@,
                    target.model@,
                    "Responses request body must be a JSON object"@,
                ) {
                    Ok(bytes) => match result {
                        Ok(Some(out)) => out.body@ == bytes && out.route() == (Route {
                            url: without_trailing_slashes(self.settings.base_url@)
                                + "/v1/responses"@,
                            bearer: Some(self.settings.api_key@),
                            headers: with_default_beta(json_headers(self.settings), *target),
                        }),
                        _ => false,
                    },
                    Err(message) => match result {
                        Err(ProviderError::Decode(text)) => text@ == message,
                        _ => false,
                    },
                }
            },
    {
        match frontend_kind {
            FrontendKind::OpenAiResponses => {},
            _ => {
                return Ok(None);
            },
        }
        match OpenAiCompatibleProvider::rewrite_model(body, target.model.as_str()) {
            Ok(body) => {
                let mut headers = start_headers(&self.settings);
                add_default_beta(&mut headers, target);
                Ok(
                    Some(
                        Outgoing {
                            url: self.responses_url(),
                            bearer: Some(self.settings.api_key.clone()),
                            headers,
                            body,
                        },
                    ),
                )
            },
            Err(error) => Err(error),
        }
    }
}

} // verus!
