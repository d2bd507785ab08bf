//! What can go wrong in a provider, and what a provider can do.
use vstd::prelude::*;
use vstd::string::*;

use crate::json::{parsed_bytes, with_member, Json, Tree};
use crate::text::{decimal, digits};

verus! {

/// What a provider supports.
#[derive(Clone, Copy, Debug, PartialEq, Eq, Structural)]
pub struct ProviderCapabilities {
    pub streaming: bool,
    pub tool_use: bool,
    pub vision: bool,
    pub json_mode: bool,
    pub accepts_xhigh: bool,
}

impl Default for ProviderCapabilities {
    fn default() -> (capabilities: ProviderCapabilities)
        ensures
            capabilities == (ProviderCapabilities {
                streaming: false,
                tool_use: false,
                vision: false,
                json_mode: false,
                accepts_xhigh: false,
            }),
    {
        ProviderCapabilities {
            streaming: false,
            tool_use: false,
            vision: false,
            json_mode: false,
            accepts_xhigh: false,
        }
    }
}

/// Why a provider call failed.
#[derive(Clone, Debug, PartialEq)]
pub enum ProviderError {
    UnknownProvider(String),
    Upstream { status: u16, body: String },
    Network(String),
    Decode(String),
    Encode(String),
    CapabilityMismatch(String),
}

/// The body with its `model` member set, or the error: the message of the
/// parser, or `not_object` where the body is no JSON object.
pub open spec fn remodelled(
    body: Seq<u8>,
    model: Seq<char>,
    not_object: Seq<char>,
) -> Result<Seq<u8>, Seq<char>> {
    match parsed_bytes(body) {
        Err(message) => Err(message),
        Ok(Tree::Object(m)) => Ok(
            vstd::utf8::encode_utf8(
                Tree::Object(with_member(m, "model"@, Tree::Text(model))).compact(),
            ),
        ),
        Ok(_) => Err(not_object),
    }
}

/// Sets the `model` member of a JSON object body.
pub(crate) fn set_model(body: &[u8], model: &str, not_object: &str) -> (result: Result<
    Vec<u8>,
    ProviderError,
>)
    ensures
        match remodelled(body@, model@, not_object@) {
            Ok(bytes) => match result {
                Ok(out) => out@ == bytes,
                Err(_) => false,
            },
            Err(message) => match result {
                Err(ProviderError::Decode(text)) => text@ == message,
                _ => false,
            },
        },
{
    match Json::parse_bytes(body) {
        Err(message) => Err(ProviderError::Decode(message)),
        Ok(Json::Object(entries)) => {
            let mut entries = entries;
            crate::json::put(&mut entries, "model", Json::text(model));
            match Json::Object(entries).to_bytes() {
                Ok(bytes) => Ok(bytes),
                Err(message) => Err(ProviderError::Encode(message)),
            }
        },
        Ok(_) => Err(ProviderError::Decode(not_object.to_owned())),
    }
}

impl ProviderError {
    /// What the error says.
    pub open spec fn shown(self) -> Seq<char> {
        match self {
            ProviderError::UnknownProvider(name) => "unknown provider: "@ + name@,
            ProviderError::Upstream { status, body } => "upstream error (status="@ + decimal(
                status as nat,
            ) + "): "@ + body@,
            ProviderError::Network(text) => "network error: "@ + text@,
            ProviderError::Decode(text) => "decode error: "@ + text@,
            ProviderError::Encode(text) => "encode error: "@ + text@,
            ProviderError::CapabilityMismatch(text) => "capability mismatch: "@ + text@,
        }
    }

    /// What the error says.
    pub fn message(&self) -> (text: String)
        ensures
            text@ == self.shown(),
    {
        match self {
            ProviderError::UnknownProvider(name) => labelled("unknown provider: ", name.as_str()),
            ProviderError::Upstream { status, body } => {
                let mut text = "upstream error (status=".to_owned();
                text.append(digits(*status as u64).as_str());
                text.append("): ");
                text.append(body.as_str());
                text
            },
            ProviderError::Network(text) => labelled("network error: ", text.as_str()),
            ProviderError::Decode(text) => labelled("decode error: ", text.as_str()),
            ProviderError::Encode(text) => labelled("encode error: ", text.as_str()),
            ProviderError::CapabilityMismatch(text) => labelled(
                "capability mismatch: ",
                text.as_str(),
            ),
        }
    }
}

/// A text behind a label.
pub(crate) fn labelled(label: &str, text: &str) -> (whole: String)
    ensures
        whole@ == label@ + text@,
{
    let mut whole = label.to_owned();
    whole.append(text);
    whole
}

} // verus!
