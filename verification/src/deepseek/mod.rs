//! DeepSeek: OpenAI's chat wire format with reasoning deltas and prompt-cache
//! counts.
use vstd::prelude::*;

pub mod blocks;
pub mod numbering;
pub mod reply_laws;
pub mod request;
pub mod response;
pub mod usage;

use crate::canonical::{BackendTarget, CanonicalRequest};
use crate::error::{ProviderCapabilities, ProviderError};
use crate::headers::{configured, header_texts};
use crate::json::Json;
use crate::oai_chat_wire::canonical_to_chat::chat_body;
use crate::openai_compatible::{json_headers, start_headers};
use crate::text::without_trailing_slashes;
use crate::upstream::{Outgoing, Route, UpstreamSettings};

verus! {

/// The DeepSeek provider. Its documented base URL ends in `/v1`.
#[derive(Debug, PartialEq)]
pub struct DeepseekProvider {
    pub settings: UpstreamSettings,
}

/// What DeepSeek supports: no images.
pub open spec fn deepseek_capabilities() -> ProviderCapabilities {
    ProviderCapabilities {
        streaming: true,
        tool_use: true,
        vision: false,
        json_mode: true,
        accepts_xhigh: false,
    }
}

impl DeepseekProvider {
    /// A provider with checked settings.
    pub fn new(
        name: &str,
        base_url: &str,
        api_key: &str,
        default_headers: &Vec<(String, String)>,
        timeout_secs: u64,
    ) -> (result: Result<DeepseekProvider, ProviderError>)
        ensures
            match configured(header_texts(default_headers@)) {
                Ok(headers) => match result {
                    Ok(provider) => {
                        &&& provider.settings.name@ == name@
                        &&& provider.settings.base_url@ == base_url@
                        &&& provider.settings.api_key@ == api_key@
                        &&& header_texts(provider.settings.default_headers@) == headers
                        &&& provider.settings.timeout_secs == timeout_secs
                        &&& provider.settings.capabilities == deepseek_capabilities()
                    },
                    Err(_) => false,
                },
                Err(message) => match result {
                    Err(ProviderError::Encode(text)) => text@ == message,
                    _ => false,
                },
            },
    {
        let capabilities = ProviderCapabilities {
            streaming: true,
            tool_use: true,
            vision: false,
            json_mode: true,
            accepts_xhigh: false,
        };
        match UpstreamSettings::new(
            name,
            base_url,
            api_key,
            default_headers,
            timeout_secs,
            capabilities,
        ) {
            Ok(settings) => Ok(DeepseekProvider { settings }),
            Err(error) => Err(error),
        }
    }

    pub fn name(&self) -> (name: &str)
        ensures
            name@ == self.settings.name@,
    {
        self.settings.name.as_str()
    }

    pub fn capabilities(&self) -> (capabilities: &ProviderCapabilities)
        ensures
            *capabilities == self.settings.capabilities,
    {
        &self.settings.capabilities
    }

    /// The URL of chat completions.
    pub fn chat_url(&self) -> (url: String)
        ensures
            url@ == without_trailing_slashes(self.settings.base_url@) + "/chat/completions"@,
    {
        self.settings.url("/chat/completions")
    }

    /// The URL of the model listing.
    pub fn models_url(&self) -> (url: String)
        ensures
            url@ == without_trailing_slashes(self.settings.base_url@) + "/models"@,
    {
        self.settings.url("/models")
    }

    /// Plans the request of a completion.
    pub fn plan_completion(&self, req: &CanonicalRequest, target: &BackendTarget) -> (out: Outgoing<
        Json,
    >)
        ensures
            out.route() == (Route {
                url: without_trailing_slashes(self.settings.base_url@) + "/chat/completions"@,
                bearer: Some(self.settings.api_key@),
                headers: json_headers(self.settings),
            }),
            out.body@ == request::stripped(chat_body(*req, *target, false)),
    {
        Outgoing {
            url: self.chat_url(),
            bearer: Some(self.settings.api_key.clone()),
            headers: start_headers(&self.settings),
            body: request::build(req, target),
        }
    }
}

} // verus!
