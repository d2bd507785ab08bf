//! OpenAI's Responses API.
pub mod encode_request;
pub mod envelope;
pub mod parse_stream;
pub mod request_laws;
pub mod stream_laws;
