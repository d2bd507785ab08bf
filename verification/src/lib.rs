//! Translation layer between a canonical chat request/response model and the
//! wire formats of several language-model providers.
pub mod anthropic;
pub mod call_laws;
pub mod canonical;
pub mod deepseek;
pub mod error;
pub mod gemini;
pub mod github_copilot;
pub mod glm;
pub mod grammar;
pub mod headers;
pub mod json;
pub mod lifecycle;
pub mod media;
pub mod model_laws;
pub mod oai_chat_wire;
pub mod openai_compatible;
pub mod provider_laws;
pub mod registry;
pub mod sorted_map;
pub mod stream;
pub mod text;
pub mod upstream;

pub use error::{ProviderCapabilities, ProviderError};
pub use registry::ProviderRegistry;
