//! GLM replies have the form of DeepSeek's, reasoning deltas included.
pub use crate::deepseek::response::{parse_unary_inner, StreamState};
