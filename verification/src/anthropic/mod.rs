//! The Anthropic Messages API.
use vstd::prelude::*;

pub mod envelope;
pub mod mirror;
pub mod passthrough;
pub mod request;
pub mod request_laws;
pub mod response;
pub mod response_laws;
pub mod scanning;
pub mod splice;
pub mod wire;
pub mod written;

use crate::canonical::{BackendTarget, CanonicalRequest, FrontendKind};
use crate::error::{ProviderCapabilities, ProviderError};
use crate::headers::{add_header, add_headers, configured, header_texts};
use crate::json::Json;
use crate::openai_compatible::{add_default_beta, with_default_beta};
use crate::text::without_trailing_slashes;
use crate::upstream::{Outgoing, Route, UpstreamSettings};

verus! {

/// A provider that speaks the Messages API.
#[derive(Debug, PartialEq)]
pub struct AnthropicProvider {
    pub settings: UpstreamSettings,
    pub anthropic_version: String,
}

/// What such a provider supports: no JSON mode.
pub open spec fn anthropic_capabilities() -> ProviderCapabilities {
    ProviderCapabilities {
        streaming: true,
        tool_use: true,
        vision: true,
        json_mode: false,
        accepts_xhigh: false,
    }
}

impl AnthropicProvider {
    /// The headers of every request: key, version and content type, then the
    /// configured ones.
    pub open spec fn message_headers(&self) -> Seq<(Seq<char>, Seq<char>)> {
        seq![
            ("x-api-key"@, self.settings.api_key@),
            ("anthropic-version"@, self.anthropic_version@),
            ("content-type"@, "application/json"@),
        ] + header_texts(self.settings.default_headers@)
    }

    /// A provider with checked settings.
    pub fn new(
        name: &str,
        base_url: &str,
        api_key: &str,
        anthropic_version: &str,
        default_headers: &Vec<(String, String)>,
        timeout_secs: u64,
    ) -> (result: Result<AnthropicProvider, ProviderError>)
        ensures
            match configured(header_texts(default_headers@)) {
                Ok(headers) => match result {
                    Ok(provider) => {
                        &&& provider.settings.name@ == name@
                        &&& provider.settings.base_url@ == base_url@
                        &&& provider.settings.api_key@ == api_key@
                        &&& provider.anthropic_version@ == anthropic_version@
                        &&& header_texts(provider.settings.default_headers@) == headers
                        &&& provider.settings.timeout_secs == timeout_secs
                        &&& provider.settings.capabilities == anthropic_capabilities()
                    },
                    Err(_) => false,
                },
                Err(message) => match result {
                    Err(ProviderError::Encode(text)) => text@ == message,
                    _ => false,
                },
            },
    {
        let capabilities = ProviderCapabilities {
            streaming: true,
            tool_use: true,
            vision: true,
            json_mode: false,
            accepts_xhigh: false,
        };
        match UpstreamSettings::new(
            name,
            base_url,
            api_key,
            default_headers,
            timeout_secs,
            capabilities,
        ) {
            Ok(settings) => Ok(
                AnthropicProvider { settings, anthropic_version: anthropic_version.to_owned() },
            ),
            Err(error) => Err(error),
        }
    }

    pub fn name(&self) -> (name: &str)
        ensures
            name@ == self.settings.name@,
    {
        self.settings.name.as_str()
    }

    pub fn capabilities(&self) -> (capabilities: &ProviderCapabilities)
        ensures
            *capabilities == self.settings.capabilities,
    {
        &self.settings.capabilities
    }

    /// The URL of the Messages API.
    pub fn messages_url(&self) -> (url: String)
        ensures
            url@ == without_trailing_slashes(self.settings.base_url@) + "/v1/messages"@,
    {
        self.settings.url("/v1/messages")
    }

    fn start_headers(&self) -> (headers: Vec<(String, String)>)
        ensures
            header_texts(headers@) == self.message_headers(),
    {
        let mut headers: Vec<(String, String)> = Vec::new();
        assert(header_texts(headers@) =~= seq![]);
        add_header(&mut headers, "x-api-key", self.settings.api_key.as_str());
        add_header(&mut headers, "anthropic-version", self.anthropic_version.as_str());
        add_header(&mut headers, "content-type", "application/json");
        add_headers(&mut headers, &self.settings.default_headers);
        assert(header_texts(headers@) =~= self.message_headers());
        headers
    }

    /// Plans the request of a completion, whatever dialect it came in. The
    /// negotiation headers of the request's policy come last.
    pub fn plan_completion(&self, req: &CanonicalRequest, target: &BackendTarget) -> (out: Outgoing<
        Json,
    >)
        ensures
            out.route() == (Route {
                url: without_trailing_slashes(self.settings.base_url@) + "/v1/messages"@,
                bearer: None,
                headers: self.message_headers() + header_texts(
                    req.resolved_policy.anthropic_headers@,
                ),
            }),
            out.body@ == request::messages_body(*req, *target),
    {
        let mut headers = self.start_headers();
        add_headers(&mut headers, &req.resolved_policy.anthropic_headers);
        Outgoing {
            url: self.messages_url(),
            bearer: None,
            headers,
            body: request::build(req, target),
        }
    }

    /// Plans the request that hands a body through. Only requests that have
    /// the form of the Messages API are handed through; for others there is no
    /// plan.
    pub fn plan_proxy(
        &self,
        body: &[u8],
        target: &BackendTarget,
        frontend_kind: FrontendKind,
    ) -> (result: Result<Option<Outgoing<Vec<u8>>>, ProviderError>)
        requires
            body@.len() <= isize::MAX,
        ensures
            if frontend_kind != FrontendKind::AnthropicMessages {
                result == Ok::<Option<Outgoing<Vec<u8>>>, ProviderError>(None)
            } else {
                match passthrough::rewritten(body@, target.model@) {
                    Ok(bytes) => match result {
                        Ok(Some(out)) => out.body@ == bytes && out.route() == (Route {
                            url: without_trailing_slashes(self.settings.base_url@)
                                + "/v1/messages"@,
                            bearer: None,
                            headers: with_default_beta(self.message_headers(), *target),
                        }),
                        _ => false,
                    },
                    Err(message) => match result {
                        Err(ProviderError::Decode(text)) => text@ == message,
                        _ => false,
                    },
                }
            },
    {
        match frontend_kind {
            FrontendKind::AnthropicMessages => {},
            _ => {
                return Ok(None);
            },
        }
        match passthrough::rewrite_model(body, target.model.as_str()) {
            Ok(body) => {
                let mut headers = self.start_headers();
                add_default_beta(&mut headers, target);
                Ok(Some(Outgoing { url: self.messages_url(), bearer: None, headers, body }))
            },
            Err(error) => Err(error),
        }
    }
}

} // verus!
