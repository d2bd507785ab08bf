//! What the events of a Responses stream say, against the members of what the
//! service sends.
use vstd::prelude::*;

use super::parse_stream::{decode_message, event_events, event_state, noted, ResponsesState};
use crate::canonical::MessageRole;
use crate::json::{tag, u32_member, u64_member, Tree};
use crate::stream::{ContentBlockKind, Event, Stop};

verus! {

/// The words of the service differ.
proof fn lemma_words()
    ensures
        tag("response.created"@) == 17144700,
        tag("response.in_progress"@) == 21151115,
        tag("response.output_item.added"@) == 27151800,
        tag("response.output_text.delta"@) == 27151797,
        tag("response.function_call_arguments.delta"@) == 39149797,
        tag("response.output_item.done"@) == 26151301,
        tag("response.completed"@) == 19150000,
        tag("response.failed"@) == 16150200,
        tag("error"@) == 6021514,
        tag("message"@) == 8101601,
        tag("function_call"@) == 14031208,
        tag("incomplete"@) == 11061301,
{
    reveal_strlit("response.created");
    reveal_strlit("response.in_progress");
    reveal_strlit("response.output_item.added");
    reveal_strlit("response.output_text.delta");
    reveal_strlit("response.function_call_arguments.delta");
    reveal_strlit("response.output_item.done");
    reveal_strlit("response.completed");
    reveal_strlit("response.failed");
    reveal_strlit("error");
    reveal_strlit("message");
    reveal_strlit("function_call");
    reveal_strlit("incomplete");
}

proof fn lemma_empty()
    ensures
        ""@ == Seq::<char>::empty(),
        ""@ != "message"@,
        ""@ != "function_call"@,
{
    reveal_strlit("");
    reveal_strlit("message");
    reveal_strlit("function_call");
    assert("message"@.len() == 7);
    assert("function_call"@.len() == 13);
    assert(""@ =~= seq![]);
}

/// The text of a member.
pub open spec fn text_at(value: Tree, key: Seq<char>) -> Option<Seq<char>> {
    match value.get(key) {
        Some(Tree::Text(s)) => Some(s),
        _ => None,
    }
}

/// The item that an event is about: its own member, or the event itself.
pub open spec fn item_in(data: Tree) -> Tree {
    match data.get("item"@) {
        Some(item) => item,
        None => data,
    }
}

/// The number of the item that an event is about.
pub open spec fn number_in(data: Tree) -> u32 {
    match u32_member(data, "output_index"@) {
        Some(n) => n,
        None => 0,
    }
}

/// The first event of a response announces it under its identifier, model and
/// time; later ones say nothing.
pub proof fn response_is_announced(state: ResponsesState, data: Tree, word: Seq<char>)
    requires
        word == "response.created"@ || word == "response.in_progress"@,
    ensures
        event_events(state, word, data) == (if state.emitted_response_start {
            Seq::<Event>::empty()
        } else {
            seq![
                Event::ResponseStart {
                    id: match text_at(data, "id"@) {
                        Some(s) => s,
                        None => "unknown"@,
                    },
                    model: match text_at(data, "model"@) {
                        Some(s) => s,
                        None => "unknown"@,
                    },
                    created_at_unix: match u64_member(data, "created_at"@) {
                        Some(n) => n,
                        None => 0,
                    },
                },
            ]
        }),
{
    lemma_words();
}

/// An added item opens a block under its number: of text for a message; for a
/// function call, a block that announces the call under the identifier by which
/// the service knows it, whatever other identifiers the item has, and under its
/// name. The first item announces the message.
pub proof fn added_item_opens_its_block(state: ResponsesState, data: Tree)
    ensures
        ({
            let item = item_in(data);
            let index = number_in(data);
            let announced: Seq<Event> = if state.emitted_message_start {
                seq![]
            } else {
                seq![Event::MessageStart { role: MessageRole::Assistant }]
            };
            let kind = text_at(item, "type"@);
            event_events(state, "response.output_item.added"@, data) == announced + (if kind
                == Some("message"@) {
                seq![Event::ContentBlockStart { index, kind: ContentBlockKind::Text }]
            } else if kind == Some("function_call"@) {
                seq![
                    Event::ContentBlockStart { index, kind: ContentBlockKind::ToolCall },
                    Event::ToolCallStart {
                        index,
                        id: match text_at(item, "call_id"@) {
                            Some(id) => id,
                            None => seq![],
                        },
                        name: match text_at(item, "name"@) {
                            Some(name) => name,
                            None => seq![],
                        },
                    },
                ]
            } else {
                Seq::<Event>::empty()
            })
        }),
{
    lemma_words();
    lemma_empty();
}

/// Pieces of text and of arguments are told whole, under the number of their
/// item; an empty piece is not told.
pub proof fn pieces_are_told(state: ResponsesState, data: Tree)
    ensures
        ({
            let index = number_in(data);
            let text = text_at(data, "delta"@);
            let says = text is Some && text->0.len() > 0;
            &&& event_events(state, "response.output_text.delta"@, data) == (if says {
                seq![Event::TextDelta { index, text: text->0 }]
            } else {
                Seq::<Event>::empty()
            })
            &&& event_events(state, "response.function_call_arguments.delta"@, data) == (if says {
                seq![Event::ToolCallArgumentsDelta { index, json_fragment: text->0 }]
            } else {
                Seq::<Event>::empty()
            })
        }),
{
    lemma_words();
    lemma_empty();
}

/// A finished item closes its block; a call stops before.
pub proof fn finished_item_closes_its_block(state: ResponsesState, data: Tree)
    ensures
        ({
            let index = number_in(data);
            let kind = text_at(item_in(data), "type"@);
            event_events(state, "response.output_item.done"@, data) == (if kind == Some(
                "message"@,
            ) {
                seq![Event::ContentBlockStop { index }]
            } else if kind == Some("function_call"@) {
                seq![Event::ToolCallStop { index }, Event::ContentBlockStop { index }]
            } else {
                Seq::<Event>::empty()
            })
        }),
{
    lemma_words();
    lemma_empty();
}

/// The end of a response stops the message, for a filter where it is incomplete,
/// and gives each count from its own member.
pub proof fn completed_response_is_told(state: ResponsesState, data: Tree)
    ensures
        ({
            let out = event_events(state, "response.completed"@, data);
            &&& out.len() == 2
            &&& out[0] == Event::MessageStop {
                stop_reason: if text_at(data, "status"@) == Some("incomplete"@) {
                    Stop::ContentFilter
                } else {
                    Stop::EndTurn
                },
                stop_sequence: None,
            }
            &&& match (out[1], data.get("usage"@)) {
                (Event::ResponseStop { usage: None }, None) => true,
                (Event::ResponseStop { usage: Some(c) }, Some(u)) => {
                    &&& c.input_tokens == u32_member(u, "input_tokens"@)
                    &&& c.output_tokens == u32_member(u, "output_tokens"@)
                    &&& c.cache_creation_input_tokens is None
                    &&& c.cache_read_input_tokens is None
                    &&& c.reasoning_tokens is None
                    &&& !c.estimated
                    &&& c.provider_raw is None
                },
                _ => false,
            }
        }),
{
    lemma_words();
    reveal_strlit("completed");
    assert("completed"@.len() == 9);
}

/// Failures are told by their message, or by a standing one.
pub proof fn failures_are_told(state: ResponsesState, data: Tree)
    ensures
        event_events(state, "response.failed"@, data) == seq![
            Event::Error {
                message: match data.get("error"@) {
                    Some(error) => match text_at(error, "message"@) {
                        Some(s) => s,
                        None => "upstream response failed"@,
                    },
                    None => "upstream response failed"@,
                },
            },
        ],
        event_events(state, "error"@, data) == seq![
            Event::Error {
                message: match text_at(data, "message"@) {
                    Some(s) => s,
                    None => "unknown error"@,
                },
            },
        ],
{
    lemma_words();
}

/// Events of other types say nothing. What was announced stays announced, a
/// stream is over once the service has said so, and what cannot be read is told
/// with the type of the event and the reason.
pub proof fn other_events_say_nothing(
    state: ResponsesState,
    word: Seq<char>,
    data: Tree,
    reason: Seq<char>,
)
    ensures
        word != "response.created"@ && word != "response.in_progress"@ && word
            != "response.output_item.added"@ && word != "response.output_text.delta"@ && word
            != "response.function_call_arguments.delta"@ && word != "response.output_item.done"@
            && word != "response.completed"@ && word != "response.failed"@ && word != "error"@
            ==> event_events(state, word, data).len() == 0,
        event_state(state, word).emitted_response_start == (state.emitted_response_start || word
            == "response.created"@ || word == "response.in_progress"@),
        event_state(state, word).emitted_message_start == (state.emitted_message_start || word
            == "response.output_item.added"@),
        event_state(state, word).stream_completed == state.stream_completed,
        noted(state, word).stream_completed == (state.stream_completed || word
            == "response.completed"@ || word == "response.failed"@),
        noted(state, word).emitted_response_start == state.emitted_response_start,
        noted(state, word).emitted_message_start == state.emitted_message_start,
        decode_message(word, reason) == "json parse for "@ + word + ": "@ + reason,
{
}

} // verus!
