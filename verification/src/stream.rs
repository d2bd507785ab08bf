//! The canonical response stream: the events that every provider parser
//! emits, and their mathematical model.
use vstd::prelude::*;

use crate::canonical::{ContentBlock, MessageRole, ToolCallId};
use crate::json::{opt_text, opt_tree, Json, Tree};
use crate::text::same_text;

verus! {

/// Identifies one response.
#[derive(Clone, Debug, PartialEq)]
pub struct ResponseId(pub String);

/// What a content block holds.
#[derive(Clone, Copy, Debug, PartialEq, Eq, Structural)]
pub enum ContentBlockKind {
    Text,
    ToolCall,
    Reasoning,
    RedactedReasoning,
}

/// Why the model stopped.
#[derive(Clone, Debug, PartialEq)]
pub enum StopReason {
    EndTurn,
    MaxTokens,
    StopSequence,
    ToolUse,
    ContentFilter,
    Other(String),
}

/// Token counts, as far as the provider reports them.
#[derive(Clone, Debug, PartialEq)]
pub struct Usage {
    pub input_tokens: Option<u32>,
    pub output_tokens: Option<u32>,
    pub cache_creation_input_tokens: Option<u32>,
    pub cache_read_input_tokens: Option<u32>,
    pub reasoning_tokens: Option<u32>,
    pub estimated: bool,
    pub provider_raw: Option<Json>,
}

/// One event of a canonical stream.
#[allow(inconsistent_fields)]
#[derive(Clone, Debug, PartialEq)]
pub enum StreamEvent {
    ResponseStart { id: ResponseId, model: String, created_at_unix: u64 },
    MessageStart { role: MessageRole },
    ContentBlockStart { index: u32, kind: ContentBlockKind },
    TextDelta { index: u32, text: String },
    ReasoningDelta { index: u32, text: String },
    ToolCallStart { index: u32, id: ToolCallId, name: String },
    ToolCallArgumentsDelta { index: u32, json_fragment: String },
    ToolCallStop { index: u32 },
    ContentBlockStop { index: u32 },
    UsageDelta { usage: Usage },
    MessageStop { stop_reason: StopReason, stop_sequence: Option<String> },
    ResponseStop { usage: Option<Usage> },
    /// What a provider reports beside the message, as it stands.
    RawProviderEvent { name: String, payload: Json },
    Error { message: String },
}

/// A whole response, for callers that do not stream.
#[derive(Clone, Debug, PartialEq)]
pub struct CanonicalResponse {
    pub id: ResponseId,
    pub model: String,
    pub content: Vec<ContentBlock>,
    pub stop_reason: StopReason,
    pub stop_sequence: Option<String>,
    pub usage: Option<Usage>,
}

/// Why a canonical stream broke.
#[derive(Clone, Debug, PartialEq)]
pub enum StreamError {
    Upstream(String),
    Decode(String),
}

// ---------------------------------------------------------------------------
// Model
// ---------------------------------------------------------------------------

/// The model of `StopReason`.
#[verifier::ext_equal]
pub enum Stop {
    EndTurn,
    MaxTokens,
    StopSequence,
    ToolUse,
    ContentFilter,
    Other(Seq<char>),
}

/// The model of `Usage`.
#[verifier::ext_equal]
pub struct Counts {
    pub input_tokens: Option<u32>,
    pub output_tokens: Option<u32>,
    pub cache_creation_input_tokens: Option<u32>,
    pub cache_read_input_tokens: Option<u32>,
    pub reasoning_tokens: Option<u32>,
    pub estimated: bool,
    pub provider_raw: Option<Tree>,
}

/// The model of `StreamEvent`.
#[allow(inconsistent_fields)]
#[verifier::ext_equal]
pub enum Event {
    ResponseStart { id: Seq<char>, model: Seq<char>, created_at_unix: u64 },
    MessageStart { role: MessageRole },
    ContentBlockStart { index: u32, kind: ContentBlockKind },
    TextDelta { index: u32, text: Seq<char> },
    ReasoningDelta { index: u32, text: Seq<char> },
    ToolCallStart { index: u32, id: Seq<char>, name: Seq<char> },
    ToolCallArgumentsDelta { index: u32, json_fragment: Seq<char> },
    ToolCallStop { index: u32 },
    ContentBlockStop { index: u32 },
    UsageDelta { usage: Counts },
    MessageStop { stop_reason: Stop, stop_sequence: Option<Seq<char>> },
    ResponseStop { usage: Option<Counts> },
    RawProviderEvent { name: Seq<char>, payload: Tree },
    Error { message: Seq<char> },
}

impl StopReason {
    pub open spec fn view(&self) -> Stop {
        match self {
            StopReason::EndTurn => Stop::EndTurn,
            StopReason::MaxTokens => Stop::MaxTokens,
            StopReason::StopSequence => Stop::StopSequence,
            StopReason::ToolUse => Stop::ToolUse,
            StopReason::ContentFilter => Stop::ContentFilter,
            StopReason::Other(s) => Stop::Other(s@),
        }
    }
}

impl Usage {
    pub open spec fn view(&self) -> Counts {
        Counts {
            input_tokens: self.input_tokens,
            output_tokens: self.output_tokens,
            cache_creation_input_tokens: self.cache_creation_input_tokens,
            cache_read_input_tokens: self.cache_read_input_tokens,
            reasoning_tokens: self.reasoning_tokens,
            estimated: self.estimated,
            provider_raw: opt_tree(self.provider_raw),
        }
    }
}

/// The counts of an optional usage.
pub open spec fn opt_counts(usage: Option<Usage>) -> Option<Counts> {
    match usage {
        Some(u) => Some(u@),
        None => None,
    }
}

/// Nothing reported.
pub open spec fn no_counts() -> Counts {
    Counts {
        input_tokens: None,
        output_tokens: None,
        cache_creation_input_tokens: None,
        cache_read_input_tokens: None,
        reasoning_tokens: None,
        estimated: false,
        provider_raw: None,
    }
}

impl StreamEvent {
    pub open spec fn view(&self) -> Event {
        match self {
            StreamEvent::ResponseStart { id, model, created_at_unix } => Event::ResponseStart {
                id: id.0@,
                model: model@,
                created_at_unix: *created_at_unix,
            },
            StreamEvent::MessageStart { role } => Event::MessageStart { role: *role },
            StreamEvent::ContentBlockStart { index, kind } => Event::ContentBlockStart {
                index: *index,
                kind: *kind,
            },
            StreamEvent::TextDelta { index, text } => Event::TextDelta {
                index: *index,
                text: text@,
            },
            StreamEvent::ReasoningDelta { index, text } => Event::ReasoningDelta {
                index: *index,
                text: text@,
            },
            StreamEvent::ToolCallStart { index, id, name } => Event::ToolCallStart {
                index: *index,
                id: id.0@,
                name: name@,
            },
            StreamEvent::ToolCallArgumentsDelta { index, json_fragment } =>
                Event::ToolCallArgumentsDelta { index: *index, json_fragment: json_fragment@ },
            StreamEvent::ToolCallStop { index } => Event::ToolCallStop { index: *index },
            StreamEvent::ContentBlockStop { index } => Event::ContentBlockStop { index: *index },
            StreamEvent::UsageDelta { usage } => Event::UsageDelta { usage: usage@ },
            StreamEvent::MessageStop { stop_reason, stop_sequence } => Event::MessageStop {
                stop_reason: stop_reason@,
                stop_sequence: opt_text(*stop_sequence),
            },
            StreamEvent::ResponseStop { usage } => Event::ResponseStop {
                usage: opt_counts(*usage),
            },
            StreamEvent::RawProviderEvent { name, payload } => Event::RawProviderEvent {
                name: name@,
                payload: payload@,
            },
            StreamEvent::Error { message } => Event::Error { message: message@ },
        }
    }
}

/// The models of a sequence of events.
pub open spec fn events(s: Seq<StreamEvent>) -> Seq<Event> {
    Seq::new(s.len(), |i: int| s[i]@)
}

/// A stop reason in OpenAI's vocabulary.
pub open spec fn openai_stop(reason: Seq<char>) -> Stop {
    if reason == "stop"@ {
        Stop::EndTurn
    } else if reason == "length"@ {
        Stop::MaxTokens
    } else if reason == "tool_calls"@ || reason == "function_call"@ {
        Stop::ToolUse
    } else if reason == "content_filter"@ {
        Stop::ContentFilter
    } else {
        Stop::Other(reason)
    }
}

/// A stop reason in Anthropic's vocabulary.
pub open spec fn anthropic_stop(reason: Seq<char>) -> Stop {
    if reason == "end_turn"@ {
        Stop::EndTurn
    } else if reason == "max_tokens"@ {
        Stop::MaxTokens
    } else if reason == "stop_sequence"@ {
        Stop::StopSequence
    } else if reason == "tool_use"@ {
        Stop::ToolUse
    } else {
        Stop::Other(reason)
    }
}

// ---------------------------------------------------------------------------
// Operations
// ---------------------------------------------------------------------------

/// Appends one event.
pub fn emit(out: &mut Vec<StreamEvent>, event: StreamEvent)
    ensures
        events(final(out)@) == events(old(out)@).push(event@),
{
    out.push(event);
    assert(events(out@) =~= events(old(out)@).push(event@));
}

/// An empty list of events.
pub fn no_events() -> (out: Vec<StreamEvent>)
    ensures
        events(out@) == Seq::<Event>::empty(),
{
    let out: Vec<StreamEvent> = Vec::new();
    assert(events(out@) =~= Seq::<Event>::empty());
    out
}

impl Default for Usage {
    fn default() -> (usage: Usage)
        ensures
            usage@ == no_counts(),
    {
        Usage {
            input_tokens: None,
            output_tokens: None,
            cache_creation_input_tokens: None,
            cache_read_input_tokens: None,
            reasoning_tokens: None,
            estimated: false,
            provider_raw: None,
        }
    }
}

impl StopReason {
    /// Reads a stop reason in OpenAI's vocabulary.
    pub fn from_provider_string(reason: &str) -> (stop: StopReason)
        ensures
            stop@ == openai_stop(reason@),
    {
        if same_text(reason, "stop") {
            StopReason::EndTurn
        } else if same_text(reason, "length") {
            StopReason::MaxTokens
        } else if same_text(reason, "tool_calls") || same_text(reason, "function_call") {
            StopReason::ToolUse
        } else if same_text(reason, "content_filter") {
            StopReason::ContentFilter
        } else {
            StopReason::Other(reason.to_owned())
        }
    }

    /// Reads a stop reason in Anthropic's vocabulary.
    pub fn from_anthropic(reason: &str) -> (stop: StopReason)
        ensures
            stop@ == anthropic_stop(reason@),
    {
        if same_text(reason, "end_turn") {
            StopReason::EndTurn
        } else if same_text(reason, "max_tokens") {
            StopReason::MaxTokens
        } else if same_text(reason, "stop_sequence") {
            StopReason::StopSequence
        } else if same_text(reason, "tool_use") {
            StopReason::ToolUse
        } else {
            StopReason::Other(reason.to_owned())
        }
    }
}

// ---------------------------------------------------------------------------
// Laws
// ---------------------------------------------------------------------------

/// The chat vocabulary of stop reasons: each word has its meaning, and a word
/// that is none of these stays what it is.
pub proof fn chat_reasons_have_their_meaning(reason: Seq<char>)
    ensures
        openai_stop(reason) == Stop::EndTurn <==> reason == "stop"@,
        openai_stop(reason) == Stop::MaxTokens <==> reason == "length"@,
        openai_stop(reason) == Stop::ToolUse <==> reason == "tool_calls"@ || reason
            == "function_call"@,
        openai_stop(reason) == Stop::ContentFilter <==> reason == "content_filter"@,
        openai_stop(reason) != Stop::StopSequence,
        match openai_stop(reason) {
            Stop::Other(other) => other == reason,
            _ => true,
        },
{
    reveal_strlit("stop");
    reveal_strlit("length");
    reveal_strlit("tool_calls");
    reveal_strlit("function_call");
    reveal_strlit("content_filter");
    assert("stop"@.len() == 4 && "length"@.len() == 6 && "tool_calls"@.len() == 10
        && "function_call"@.len() == 13 && "content_filter"@.len() == 14);
}

/// The Messages vocabulary of stop reasons: each word has its meaning, and a
/// word that is none of these stays what it is.
pub proof fn messages_reasons_have_their_meaning(reason: Seq<char>)
    ensures
        anthropic_stop(reason) == Stop::EndTurn <==> reason == "end_turn"@,
        anthropic_stop(reason) == Stop::MaxTokens <==> reason == "max_tokens"@,
        anthropic_stop(reason) == Stop::StopSequence <==> reason == "stop_sequence"@,
        anthropic_stop(reason) == Stop::ToolUse <==> reason == "tool_use"@,
        anthropic_stop(reason) != Stop::ContentFilter,
        match anthropic_stop(reason) {
            Stop::Other(other) => other == reason,
            _ => true,
        },
{
    reveal_strlit("end_turn");
    reveal_strlit("max_tokens");
    reveal_strlit("stop_sequence");
    reveal_strlit("tool_use");
    assert("end_turn"@.len() == 8 && "max_tokens"@.len() == 10 && "stop_sequence"@.len() == 13
        && "tool_use"@.len() == 8);
    assert("end_turn"@[0] == 'e' && "tool_use"@[0] == 't');
}

/// The model of a report has each count of it under its own name.
pub proof fn reports_keep_their_counts(usage: Usage)
    ensures
        usage@.input_tokens == usage.input_tokens,
        usage@.output_tokens == usage.output_tokens,
        usage@.cache_creation_input_tokens == usage.cache_creation_input_tokens,
        usage@.cache_read_input_tokens == usage.cache_read_input_tokens,
        usage@.reasoning_tokens == usage.reasoning_tokens,
        usage@.estimated == usage.estimated,
        usage@.provider_raw is Some <==> usage.provider_raw is Some,
        usage.provider_raw is Some ==> usage@.provider_raw == Some(usage.provider_raw->0@),
{
}

} // verus!
