//! Turns the server-sent events of a Responses API stream into canonical
//! events.
use vstd::prelude::*;
use vstd::string::*;

use crate::canonical::{MessageRole, ToolCallId};
use crate::json::{
    parsed_text, str_member_or, u32_member, u64_member, Json, Tree,
};
use crate::stream::{
    emit, events, no_counts, no_events, ContentBlockKind, Counts, Event, ResponseId, Stop,
    StopReason, StreamError, StreamEvent, Usage,
};
use crate::text::same_text;

verus! {

/// What the parser remembers between events.
#[derive(Clone, Copy, Debug, PartialEq, Eq, Structural)]
pub struct ResponsesState {
    pub emitted_response_start: bool,
    pub emitted_message_start: bool,
    pub stream_completed: bool,
}

// ---------------------------------------------------------------------------
// Model
// ---------------------------------------------------------------------------

/// The item that an event is about: its `item` member, or else the event
/// itself.
pub open spec fn item_of(data: Tree) -> Tree {
    match data.get("item"@) {
        Some(item) => item,
        None => data,
    }
}

/// The number of the output item that an event is about.
pub open spec fn output_index(data: Tree) -> u32 {
    match u32_member(data, "output_index"@) {
        Some(n) => n,
        None => 0,
    }
}

/// The counts of a `usage` member.
pub open spec fn usage_counts(data: Tree) -> Option<Counts> {
    match data.get("usage"@) {
        Some(u) => Some(
            Counts {
                input_tokens: u32_member(u, "input_tokens"@),
                output_tokens: u32_member(u, "output_tokens"@),
                ..no_counts()
            },
        ),
        None => None,
    }
}

pub open spec fn is_start(event_type: Seq<char>) -> bool {
    event_type == "response.created"@ || event_type == "response.in_progress"@
}

/// Whether an event ends the stream.
pub open spec fn is_end(event_type: Seq<char>) -> bool {
    event_type == "response.completed"@ || event_type == "response.failed"@
}

/// The start of an output item: text for a message, a call for a function.
pub open spec fn item_added(data: Tree) -> Seq<Event> {
    let item = item_of(data);
    let index = output_index(data);
    let item_type = str_member_or(item, "type"@, ""@);
    if item_type == "message"@ {
        seq![Event::ContentBlockStart { index, kind: ContentBlockKind::Text }]
    } else if item_type == "function_call"@ {
        seq![
            Event::ContentBlockStart { index, kind: ContentBlockKind::ToolCall },
            Event::ToolCallStart {
                index,
                id: str_member_or(item, "call_id"@, ""@),
                name: str_member_or(item, "name"@, ""@),
            },
        ]
    } else {
        seq![]
    }
}

/// The end of an output item.
pub open spec fn item_done(data: Tree) -> Seq<Event> {
    let item_type = str_member_or(item_of(data), "type"@, ""@);
    let index = output_index(data);
    if item_type == "function_call"@ {
        seq![Event::ToolCallStop { index }, Event::ContentBlockStop { index }]
    } else if item_type == "message"@ {
        seq![Event::ContentBlockStop { index }]
    } else {
        seq![]
    }
}

/// The message of a failed response.
pub open spec fn failure_message(data: Tree) -> Seq<char> {
    match data.get("error"@) {
        Some(error) => str_member_or(error, "message"@, "upstream response failed"@),
        None => "upstream response failed"@,
    }
}

/// The canonical events of one upstream event.
pub open spec fn event_events(
    state: ResponsesState,
    event_type: Seq<char>,
    data: Tree,
) -> Seq<Event> {
    if is_start(event_type) {
        if state.emitted_response_start {
            seq![]
        } else {
            seq![
                Event::ResponseStart {
                    id: str_member_or(data, "id"@, "unknown"@),
                    model: str_member_or(data, "model"@, "unknown"@),
                    created_at_unix: match u64_member(data, "created_at"@) {
                        Some(n) => n,
                        None => 0,
                    },
                },
            ]
        }
    } else if event_type == "response.output_item.added"@ {
        (if state.emitted_message_start {
            Seq::<Event>::empty()
        } else {
            seq![Event::MessageStart { role: MessageRole::Assistant }]
        }) + item_added(data)
    } else if event_type == "response.output_text.delta"@ {
        let text = str_member_or(data, "delta"@, ""@);
        if text.len() == 0 {
            seq![]
        } else {
            seq![Event::TextDelta { index: output_index(data), text }]
        }
    } else if event_type == "response.function_call_arguments.delta"@ {
        let text = str_member_or(data, "delta"@, ""@);
        if text.len() == 0 {
            seq![]
        } else {
            seq![Event::ToolCallArgumentsDelta { index: output_index(data), json_fragment: text }]
        }
    } else if event_type == "response.output_item.done"@ {
        item_done(data)
    } else if event_type == "response.completed"@ {
        let status = str_member_or(data, "status"@, "completed"@);
        seq![
            Event::MessageStop {
                stop_reason: if status == "incomplete"@ {
                    Stop::ContentFilter
                } else {
                    Stop::EndTurn
                },
                stop_sequence: None,
            },
            Event::ResponseStop { usage: usage_counts(data) },
        ]
    } else if event_type == "response.failed"@ {
        seq![Event::Error { message: failure_message(data) }]
    } else if event_type == "error"@ {
        seq![Event::Error { message: str_member_or(data, "message"@, "unknown error"@) }]
    } else {
        seq![]
    }
}

/// The state after one upstream event that was parsed.
pub open spec fn event_state(state: ResponsesState, event_type: Seq<char>) -> ResponsesState {
    ResponsesState {
        emitted_response_start: state.emitted_response_start || is_start(event_type),
        emitted_message_start: state.emitted_message_start || event_type
            == "response.output_item.added"@,
        ..state
    }
}

/// The state after the type of an event was seen.
pub open spec fn noted(state: ResponsesState, event_type: Seq<char>) -> ResponsesState {
    ResponsesState { stream_completed: state.stream_completed || is_end(event_type), ..state }
}

/// The message for an event whose data is no JSON.
pub open spec fn decode_message(event_type: Seq<char>, message: Seq<char>) -> Seq<char> {
    "json parse for "@ + event_type + ": "@ + message
}

// ---------------------------------------------------------------------------
// Operations
// ---------------------------------------------------------------------------

impl Default for ResponsesState {
    fn default() -> (state: ResponsesState)
        ensures
            state == (ResponsesState {
                emitted_response_start: false,
                emitted_message_start: false,
                stream_completed: false,
            }),
    {
        ResponsesState {
            emitted_response_start: false,
            emitted_message_start: false,
            stream_completed: false,
        }
    }
}

fn output_index_of(data: &Json) -> (index: u32)
    ensures
        index == output_index(data@),
{
    match data.u32_member("output_index") {
        Some(n) => n,
        None => 0,
    }
}

fn usage_of(data: &Json) -> (usage: Option<Usage>)
    ensures
        crate::stream::opt_counts(usage) == usage_counts(data@),
{
    match data.get("usage") {
        Some(u) => Some(
            Usage {
                input_tokens: u.u32_member("input_tokens"),
                output_tokens: u.u32_member("output_tokens"),
                cache_creation_input_tokens: None,
                cache_read_input_tokens: None,
                reasoning_tokens: None,
                estimated: false,
                provider_raw: None,
            },
        ),
        None => None,
    }
}

/// Translates one upstream event.
pub fn parse_event(event_type: &str, data: &Json, state: &mut ResponsesState) -> (out: Vec<
    StreamEvent,
>)
    ensures
        events(out@) == event_events(*old(state), event_type@, data@),
        *final(state) == event_state(*old(state), event_type@),
{
    let mut out = no_events();
    let ghost start = *state;
    proof {
        lemma_event_names_differ();
    }
    if same_text(event_type, "response.created") || same_text(event_type, "response.in_progress") {
        if !state.emitted_response_start {
            state.emitted_response_start = true;
            let created: u64 = match data.u64_member("created_at") {
                Some(n) => n,
                None => 0,
            };
            emit(
                &mut out,
                StreamEvent::ResponseStart {
                    id: ResponseId(data.str_member_or("id", "unknown")),
                    model: data.str_member_or("model", "unknown"),
                    created_at_unix: created,
                },
            );
        }
    } else if same_text(event_type, "response.output_item.added") {
        let item = match data.get("item") {
            Some(item) => item,
            None => data,
        };
        let item_type = item.str_member_or("type", "");
        let index = output_index_of(data);
        if !state.emitted_message_start {
            state.emitted_message_start = true;
            emit(&mut out, StreamEvent::MessageStart { role: MessageRole::Assistant });
        }
        if same_text(item_type.as_str(), "message") {
            emit(
                &mut out,
                StreamEvent::ContentBlockStart { index, kind: ContentBlockKind::Text },
            );
        } else if same_text(item_type.as_str(), "function_call") {
            let call_id = item.str_member_or("call_id", "");
            let name = item.str_member_or("name", "");
            emit(
                &mut out,
                StreamEvent::ContentBlockStart { index, kind: ContentBlockKind::ToolCall },
            );
            emit(
                &mut out,
                StreamEvent::ToolCallStart {
                    index,
                    id: ToolCallId::from_provider(call_id.as_str()),
                    name,
                },
            );
        }
    } else if same_text(event_type, "response.output_text.delta") {
        let text = data.str_member_or("delta", "");
        if !text.as_str().is_empty() {
            emit(&mut out, StreamEvent::TextDelta { index: output_index_of(data), text });
        }
    } else if same_text(event_type, "response.function_call_arguments.delta") {
        let text = data.str_member_or("delta", "");
        if !text.as_str().is_empty() {
            emit(
                &mut out,
                StreamEvent::ToolCallArgumentsDelta {
                    index: output_index_of(data),
                    json_fragment: text,
                },
            );
        }
    } else if same_text(event_type, "response.output_item.done") {
        let item = match data.get("item") {
            Some(item) => item,
            None => data,
        };
        let item_type = item.str_member_or("type", "");
        let index = output_index_of(data);
        if same_text(item_type.as_str(), "function_call") {
            emit(&mut out, StreamEvent::ToolCallStop { index });
            emit(&mut out, StreamEvent::ContentBlockStop { index });
        } else if same_text(item_type.as_str(), "message") {
            emit(&mut out, StreamEvent::ContentBlockStop { index });
        }
    } else if same_text(event_type, "response.completed") {
        let status = data.str_member_or("status", "completed");
        let stop_reason = if same_text(status.as_str(), "incomplete") {
            StopReason::ContentFilter
        } else {
            StopReason::EndTurn
        };
        emit(&mut out, StreamEvent::MessageStop { stop_reason, stop_sequence: None });
        emit(&mut out, StreamEvent::ResponseStop { usage: usage_of(data) });
    } else if same_text(event_type, "response.failed") {
        let message = match data.get("error") {
            Some(error) => error.str_member_or("message", "upstream response failed"),
            None => "upstream response failed".to_owned(),
        };
        emit(&mut out, StreamEvent::Error { message });
    } else if same_text(event_type, "error") {
        emit(
            &mut out,
            StreamEvent::Error { message: data.str_member_or("message", "unknown error") },
        );
    }
    assert(events(out@) =~= event_events(start, event_type@, data@));
    out
}

/// The events that announce the response are not the one that adds an item.
pub proof fn lemma_event_names_differ()
    ensures
        "response.created"@ != "response.output_item.added"@,
        "response.in_progress"@ != "response.output_item.added"@,
{
    reveal_strlit("response.created");
    reveal_strlit("response.in_progress");
    reveal_strlit("response.output_item.added");
    assert("response.created"@.len() < "response.output_item.added"@.len());
    assert("response.in_progress"@.len() < "response.output_item.added"@.len());
}

impl ResponsesState {
    /// Handles one server-sent event.
    pub fn handle_event(
        &mut self,
        event_type: &str,
        data: &str,
    ) -> (result: Result<Vec<StreamEvent>, StreamError>)
        ensures
            match parsed_text(data@) {
                Err(message) => {
                    &&& *final(self) == noted(*old(self), event_type@)
                    &&& match result {
                        Err(StreamError::Decode(text)) => text@ == decode_message(
                            event_type@,
                            message,
                        ),
                        _ => false,
                    }
                },
                Ok(tree) => {
                    &&& *final(self) == event_state(noted(*old(self), event_type@), event_type@)
                    &&& match result {
                        Ok(out) => events(out@) == event_events(
                            noted(*old(self), event_type@),
                            event_type@,
                            tree,
                        ),
                        Err(_) => false,
                    }
                },
            },
    {
        if same_text(event_type, "response.completed") || same_text(event_type, "response.failed") {
            self.stream_completed = true;
        }
        match Json::parse(data) {
            Ok(value) => Ok(parse_event(event_type, &value, self)),
            Err(message) => {
                let mut text = "json parse for ".to_owned();
                text.append(event_type);
                text.append(": ");
                text.append(message.as_str());
                Err(StreamError::Decode(text))
            },
        }
    }

    /// Handles an error of the transport: it is dropped once the stream has
    /// ended, and passed on before.
    pub fn handle_transport_error(&self, message: &str) -> (error: Option<StreamError>)
        ensures
            match error {
                None => self.stream_completed,
                Some(StreamError::Upstream(text)) => !self.stream_completed && text@ == message@,
                Some(StreamError::Decode(_)) => false,
            },
    {
        if self.stream_completed {
            None
        } else {
            Some(StreamError::Upstream(message.to_owned()))
        }
    }
}

// ---------------------------------------------------------------------------
// Laws
// ---------------------------------------------------------------------------

/// The response and the message are each announced at most once: only in a
/// state in which that has not happened, and the next state remembers it.
pub proof fn announcements_happen_once(
    state: ResponsesState,
    event_type: Seq<char>,
    data: Tree,
    i: int,
)
    requires
        0 <= i < event_events(state, event_type, data).len(),
    ensures
        event_events(state, event_type, data)[i] is ResponseStart ==> {
            &&& !state.emitted_response_start
            &&& event_state(state, event_type).emitted_response_start
        },
        event_events(state, event_type, data)[i] is MessageStart ==> {
            &&& !state.emitted_message_start
            &&& event_state(state, event_type).emitted_message_start
        },
        state.emitted_response_start ==> event_state(state, event_type).emitted_response_start,
        state.emitted_message_start ==> event_state(state, event_type).emitted_message_start,
{
    lemma_event_names_differ();
}

} // verus!
