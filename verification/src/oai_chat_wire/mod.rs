//! The OpenAI chat-completions wire format, shared by several providers.
pub mod canonical_to_chat;
pub mod chat_sse_parser;
pub mod envelope;
pub mod interleaved_reasoning;
pub mod opening;
pub mod request_laws;
pub mod stream_laws;
