//! Google's Generate Content API.
use vstd::prelude::*;

pub mod endpoint;
pub mod envelope;
pub mod listing;
pub mod request;
pub mod reply_laws;
pub mod request_laws;
pub mod response;
pub mod stream;
pub mod synthesis;
pub mod wire;

use crate::canonical::{BackendTarget, CanonicalRequest};
use crate::error::{ProviderCapabilities, ProviderError};
use crate::headers::{configured, header_texts};
use crate::json::Json;
use crate::openai_compatible::{json_headers, start_headers};
use crate::upstream::{Outgoing, Route, UpstreamSettings};

verus! {

/// The Gemini provider. Its key travels as a query parameter, which is not
/// part of a planned request.
#[derive(Debug, PartialEq)]
pub struct GeminiProvider {
    pub settings: UpstreamSettings,
}

/// What Gemini supports.
pub open spec fn gemini_capabilities() -> ProviderCapabilities {
    ProviderCapabilities {
        streaming: true,
        tool_use: true,
        vision: true,
        json_mode: true,
        accepts_xhigh: false,
    }
}

impl GeminiProvider {
    /// A provider with checked settings.
    pub fn new(
        name: &str,
        base_url: &str,
        api_key: &str,
        default_headers: &Vec<(String, String)>,
        timeout_secs: u64,
    ) -> (result: Result<GeminiProvider, ProviderError>)
        ensures
            match configured(header_texts(default_headers@)) {
                Ok(headers) => match result {
                    Ok(provider) => {
                        &&& provider.settings.name@ == name@
                        &&& provider.settings.base_url@ == base_url@
                        &&& provider.settings.api_key@ == api_key@
                        &&& header_texts(provider.settings.default_headers@) == headers
                        &&& provider.settings.timeout_secs == timeout_secs
                        &&& provider.settings.capabilities == gemini_capabilities()
                    },
                    Err(_) => false,
                },
                Err(message) => match result {
                    Err(ProviderError::Encode(text)) => text@ == message,
                    _ => false,
                },
            },
    {
        let capabilities = ProviderCapabilities {
            streaming: true,
            tool_use: true,
            vision: true,
            json_mode: true,
            accepts_xhigh: false,
        };
        match UpstreamSettings::new(
            name,
            base_url,
            api_key,
            default_headers,
            timeout_secs,
            capabilities,
        ) {
            Ok(settings) => Ok(GeminiProvider { settings }),
            Err(error) => Err(error),
        }
    }

    pub fn name(&self) -> (name: &str)
        ensures
            name@ == self.settings.name@,
    {
        self.settings.name.as_str()
    }

    pub fn capabilities(&self) -> (capabilities: &ProviderCapabilities)
        ensures
            *capabilities == self.settings.capabilities,
    {
        &self.settings.capabilities
    }

    /// Plans the request of a completion, whatever dialect it came in.
    pub fn plan_completion(&self, req: &CanonicalRequest, target: &BackendTarget) -> (out: Outgoing<
        Json,
    >)
        ensures
            out.route() == (Route {
                url: endpoint::method_url(
                    self.settings.base_url@,
                    target.model@,
                    if req.stream {
                        ":streamGenerateContent"@
                    } else {
                        ":generateContent"@
                    },
                ),
                bearer: None,
                headers: json_headers(self.settings),
            }),
            out.body@ == wire::request_tree(request::content_request(*req)),
    {
        let base = self.settings.base_url.as_str();
        let url = if req.stream {
            endpoint::streaming_url(base, target.model.as_str())
        } else {
            endpoint::unary_url(base, target.model.as_str())
        };
        Outgoing {
            url,
            bearer: None,
            headers: start_headers(&self.settings),
            body: request::build(req, target).to_json(),
        }
    }
}

} // verus!
