//! What the Messages API sends back: the events of a stream and the complete
//! response.
use vstd::prelude::*;

use crate::json::Json;

verus! {

/// A complete response.
#[derive(Clone, Debug, PartialEq)]
pub struct IncomingMessagesResponse {
    pub id: String,
    pub model: String,
    pub content: Vec<IncomingContentBlock>,
    pub stop_reason: Option<String>,
    pub stop_sequence: Option<String>,
    pub usage: Option<IncomingUsage>,
}

/// A block of a complete response.
#[derive(Clone, Debug, PartialEq)]
pub enum IncomingContentBlock {
    Text { text: String },
    ToolUse { id: String, name: String, input: Json },
    Thinking { thinking: String, signature: Option<String> },
    RedactedThinking { data: String },
}

/// Token counts.
#[derive(Clone, Copy, Debug, PartialEq, Eq, Structural)]
pub struct IncomingUsage {
    pub input_tokens: Option<u32>,
    pub output_tokens: Option<u32>,
    pub cache_creation_input_tokens: Option<u32>,
    pub cache_read_input_tokens: Option<u32>,
}

/// One event of a stream.
#[derive(Clone, Debug, PartialEq)]
pub enum IncomingEvent {
    MessageStart { message: IncomingMessageStart },
    ContentBlockStart { index: u32, content_block: IncomingContentBlockStart },
    ContentBlockDelta { index: u32, delta: IncomingContentBlockDelta },
    ContentBlockStop { index: u32 },
    MessageDelta { change: IncomingMessageDelta, usage: Option<IncomingUsage> },
    MessageStop,
    Ping,
    Error { error: IncomingErrorPayload },
}

#[derive(Clone, Debug, PartialEq)]
pub struct IncomingMessageStart {
    pub id: String,
    pub model: String,
    pub usage: Option<IncomingUsage>,
}

/// The start of a block in a stream. The input of a tool call comes later, in
/// fragments.
#[derive(Clone, Debug, PartialEq)]
pub enum IncomingContentBlockStart {
    Text { text: String },
    ToolUse { id: String, name: String },
    Thinking { thinking: String },
    RedactedThinking { data: String },
}

#[derive(Clone, Debug, PartialEq)]
pub enum IncomingContentBlockDelta {
    TextDelta { text: String },
    InputJsonDelta { partial_json: String },
    ThinkingDelta { thinking: String },
    SignatureDelta { signature: String },
}

#[derive(Clone, Debug, PartialEq)]
pub struct IncomingMessageDelta {
    pub stop_reason: Option<String>,
    pub stop_sequence: Option<String>,
}

#[derive(Clone, Debug, PartialEq)]
pub struct IncomingErrorPayload {
    pub kind: String,
    pub message: String,
}

} // verus!
