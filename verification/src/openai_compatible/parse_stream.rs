//! Turns single chunks of a chat-completions stream into canonical events,
//! each chunk on its own.
use vstd::prelude::*;
use vstd::string::*;

use crate::canonical::{MessageRole, ToolCallId};
use crate::json::{
    array_member, parsed_text, str_member, str_member_or, trees, u32_member, u64_member, Json, Tree,
};
use crate::stream::{
    emit, events, no_counts, no_events, openai_stop, opt_counts, ContentBlockKind, Counts, Event,
    ResponseId, StopReason, StreamError, StreamEvent, Usage,
};
use crate::text::same_text;

verus! {

// ---------------------------------------------------------------------------
// Model
// ---------------------------------------------------------------------------

/// An `index` member, or zero.
pub open spec fn index_of(value: Tree) -> u32 {
    match u32_member(value, "index"@) {
        Some(n) => n,
        None => 0,
    }
}

/// The token counts of a `usage` member.
pub open spec fn token_counts(value: Tree) -> Option<Counts> {
    match value.get("usage"@) {
        Some(u) => Some(
            Counts {
                input_tokens: u32_member(u, "prompt_tokens"@),
                output_tokens: u32_member(u, "completion_tokens"@),
                ..no_counts()
            },
        ),
        None => None,
    }
}

/// A string member of the `function` member of a tool call.
pub open spec fn function_member(call: Tree, key: Seq<char>) -> Option<Seq<char>> {
    match call.get("function"@) {
        Some(function) => str_member(function, key),
        None => None,
    }
}

pub open spec fn function_member_or(
    call: Tree,
    key: Seq<char>,
    default: Seq<char>,
) -> Seq<char> {
    match function_member(call, key) {
        Some(s) => s,
        None => default,
    }
}

/// The end of the message, where the choice names a reason.
pub open spec fn finish_events(choice: Tree) -> Seq<Event> {
    match str_member(choice, "finish_reason"@) {
        Some(reason) => if reason.len() > 0 {
            seq![Event::MessageStop { stop_reason: openai_stop(reason), stop_sequence: None }]
        } else {
            seq![]
        },
        None => seq![],
    }
}

/// The start of the message, where the delta names a role.
pub open spec fn role_events(delta: Tree) -> Seq<Event> {
    match str_member(delta, "role"@) {
        Some(role) => seq![
            Event::MessageStart {
                role: if role == "user"@ {
                    MessageRole::User
                } else {
                    MessageRole::Assistant
                },
            },
        ],
        None => seq![],
    }
}

/// A block of its own for the delta's text.
pub open spec fn text_events(delta: Tree, index: u32) -> Seq<Event> {
    match str_member(delta, "content"@) {
        Some(text) => if text.len() > 0 {
            seq![
                Event::ContentBlockStart { index, kind: ContentBlockKind::Text },
                Event::TextDelta { index, text },
                Event::ContentBlockStop { index },
            ]
        } else {
            seq![]
        },
        None => seq![],
    }
}

/// One tool call: an identifier announces it, arguments extend it.
pub open spec fn call_events(call: Tree) -> Seq<Event> {
    let index = index_of(call);
    (match str_member(call, "id"@) {
        Some(id) => seq![
            Event::ContentBlockStart { index, kind: ContentBlockKind::ToolCall },
            Event::ToolCallStart { index, id, name: function_member_or(call, "name"@, ""@) },
        ],
        None => seq![],
    }) + (match function_member(call, "arguments"@) {
        Some(text) => if text.len() > 0 {
            seq![Event::ToolCallArgumentsDelta { index, json_fragment: text }]
        } else {
            seq![]
        },
        None => seq![],
    })
}

pub open spec fn calls_events(calls: Seq<Tree>) -> Seq<Event>
    decreases calls.len(),
{
    if calls.len() == 0 {
        seq![]
    } else {
        calls_events(calls.drop_last()) + call_events(calls.last())
    }
}

pub open spec fn delta_events(delta: Tree, index: u32) -> Seq<Event> {
    role_events(delta) + text_events(delta, index) + (match array_member(delta, "tool_calls"@) {
        Some(calls) => calls_events(calls),
        None => seq![],
    })
}

pub open spec fn choice_events(choice: Tree) -> Seq<Event> {
    finish_events(choice) + (match choice.get("delta"@) {
        Some(delta) => delta_events(delta, index_of(choice)),
        None => seq![],
    })
}

pub open spec fn choices_events(choices: Seq<Tree>) -> Seq<Event>
    decreases choices.len(),
{
    if choices.len() == 0 {
        seq![]
    } else {
        choices_events(choices.drop_last()) + choice_events(choices.last())
    }
}

pub open spec fn usage_events(chunk: Tree) -> Seq<Event> {
    match token_counts(chunk) {
        Some(usage) => seq![Event::UsageDelta { usage }],
        None => seq![],
    }
}

/// The start of the response, from the members that every chunk repeats.
pub open spec fn start_event(value: Tree) -> Event {
    Event::ResponseStart {
        id: str_member_or(value, "id"@, "unknown"@),
        model: str_member_or(value, "model"@, "unknown"@),
        created_at_unix: match u64_member(value, "created"@) {
            Some(n) => n,
            None => 0,
        },
    }
}

/// An upstream error.
pub open spec fn error_event(error: Tree) -> Event {
    Event::Error { message: str_member_or(error, "message"@, "upstream error"@) }
}

/// The events of one chunk.
pub open spec fn chunk_events(chunk: Tree) -> Seq<Event> {
    match chunk.get("error"@) {
        Some(error) => seq![error_event(error)],
        None => seq![start_event(chunk)] + (match array_member(chunk, "choices"@) {
            None => usage_events(chunk),
            Some(choices) => choices_events(choices) + (if chunk.get("usage"@) == Some(
                Tree::Null,
            ) {
                Seq::<Event>::empty()
            } else {
                usage_events(chunk)
            }),
        }),
    }
}

// ---------------------------------------------------------------------------
// Operations
// ---------------------------------------------------------------------------

/// Reads an `index` member.
fn read_index(value: &Json) -> (index: u32)
    ensures
        index == index_of(value@),
{
    match value.u32_member("index") {
        Some(n) => n,
        None => 0,
    }
}

/// Reads a string member of a call's function.
pub(crate) fn read_function_member_or(call: &Json, key: &str, default: &str) -> (text: String)
    ensures
        text@ == function_member_or(call@, key@, default@),
{
    match call.get("function") {
        Some(function) => function.str_member_or(key, default),
        None => default.to_owned(),
    }
}

/// Reads the token counts of a `usage` member.
pub fn parse_usage(value: &Json) -> (usage: Option<Usage>)
    ensures
        opt_counts(usage) == token_counts(value@),
{
    match value.get("usage") {
        Some(u) => Some(
            Usage {
                input_tokens: u.u32_member("prompt_tokens"),
                output_tokens: u.u32_member("completion_tokens"),
                cache_creation_input_tokens: None,
                cache_read_input_tokens: None,
                reasoning_tokens: None,
                estimated: false,
                provider_raw: None,
            },
        ),
        None => None,
    }
}

/// Reads the members that start a response.
pub(crate) fn read_start(value: &Json) -> (event: StreamEvent)
    ensures
        event@ == start_event(value@),
{
    let created: u64 = match value.u64_member("created") {
        Some(n) => n,
        None => 0,
    };
    StreamEvent::ResponseStart {
        id: ResponseId(value.str_member_or("id", "unknown")),
        model: value.str_member_or("model", "unknown"),
        created_at_unix: created,
    }
}

fn push_call(out: &mut Vec<StreamEvent>, call: &Json)
    ensures
        events(final(out)@) == events(old(out)@) + call_events(call@),
{
    let ghost start = events(out@);
    let index = read_index(call);
    if let Some(id) = call.str_member("id") {
        emit(out, StreamEvent::ContentBlockStart { index, kind: ContentBlockKind::ToolCall });
        emit(
            out,
            StreamEvent::ToolCallStart {
                index,
                id: ToolCallId::from_provider(id),
                name: read_function_member_or(call, "name", ""),
            },
        );
    }
    let arguments = match call.get("function") {
        Some(function) => function.str_member("arguments"),
        None => None,
    };
    if let Some(text) = arguments {
        if !text.is_empty() {
            emit(
                out,
                StreamEvent::ToolCallArgumentsDelta { index, json_fragment: text.to_owned() },
            );
        }
    }
    assert(events(out@) =~= start + call_events(call@));
}

fn push_delta(out: &mut Vec<StreamEvent>, delta: &Json, index: u32)
    ensures
        events(final(out)@) == events(old(out)@) + delta_events(delta@, index),
{
    let ghost start = events(out@);
    if let Some(role) = delta.str_member("role") {
        let role = if same_text(role, "user") {
            MessageRole::User
        } else {
            MessageRole::Assistant
        };
        emit(out, StreamEvent::MessageStart { role });
    }
    if let Some(text) = delta.str_member("content") {
        if !text.is_empty() {
            emit(out, StreamEvent::ContentBlockStart { index, kind: ContentBlockKind::Text });
            emit(out, StreamEvent::TextDelta { index, text: text.to_owned() });
            emit(out, StreamEvent::ContentBlockStop { index });
        }
    }
    let ghost middle = events(out@);
    assert(middle =~= start + role_events(delta@) + text_events(delta@, index));
    if let Some(calls) = delta.array_member("tool_calls") {
        let ghost all = trees(calls@);
        let mut i: usize = 0;
        assert(middle + calls_events(all.take(0)) =~= middle);
        while i < calls.len()
            invariant
                i <= calls@.len(),
                all == trees(calls@),
                events(out@) == middle + calls_events(all.take(i as int)),
            decreases calls.len() - i,
        {
            assert(all[i as int] == calls@[i as int]@);
            push_call(out, &calls[i]);
            i = i + 1;
            proof {
                assert(all.take(i as int).drop_last() =~= all.take(i - 1));
                assert(events(out@) =~= middle + calls_events(all.take(i as int)));
            }
        }
        assert(all.take(i as int) =~= all);
    }
    assert(events(out@) =~= start + delta_events(delta@, index));
}

fn push_choice(out: &mut Vec<StreamEvent>, choice: &Json)
    ensures
        events(final(out)@) == events(old(out)@) + choice_events(choice@),
{
    let ghost start = events(out@);
    let index = read_index(choice);
    if let Some(reason) = choice.str_member("finish_reason") {
        if !reason.is_empty() {
            emit(
                out,
                StreamEvent::MessageStop {
                    stop_reason: StopReason::from_provider_string(reason),
                    stop_sequence: None,
                },
            );
        }
    }
    assert(events(out@) =~= start + finish_events(choice@));
    if let Some(delta) = choice.get("delta") {
        push_delta(out, delta, index);
    }
    assert(events(out@) =~= start + choice_events(choice@));
}

/// Translates one parsed chunk.
pub fn translate_chunk(chunk: &Json) -> (out: Vec<StreamEvent>)
    ensures
        events(out@) == chunk_events(chunk@),
{
    let mut out = no_events();
    if let Some(error) = chunk.get("error") {
        let message = error.str_member_or("message", "upstream error");
        emit(&mut out, StreamEvent::Error { message });
        assert(events(out@) =~= chunk_events(chunk@));
        return out;
    }
    emit(&mut out, read_start(chunk));
    let ghost begun = events(out@);
    assert(begun =~= seq![start_event(chunk@)]);
    let mut wants_usage = true;
    if let Some(choices) = chunk.array_member("choices") {
        let ghost all = trees(choices@);
        let mut i: usize = 0;
        assert(begun + choices_events(all.take(0)) =~= begun);
        while i < choices.len()
            invariant
                i <= choices@.len(),
                all == trees(choices@),
                events(out@) == begun + choices_events(all.take(i as int)),
            decreases choices.len() - i,
        {
            assert(all[i as int] == choices@[i as int]@);
            push_choice(&mut out, &choices[i]);
            i = i + 1;
            proof {
                assert(all.take(i as int).drop_last() =~= all.take(i - 1));
                assert(events(out@) =~= begun + choices_events(all.take(i as int)));
            }
        }
        assert(all.take(i as int) =~= all);
        if let Some(u) = chunk.get("usage") {
            if u.is_null() {
                wants_usage = false;
            }
        }
    }
    if wants_usage {
        if let Some(usage) = parse_usage(chunk) {
            emit(&mut out, StreamEvent::UsageDelta { usage });
        }
    }
    assert(events(out@) =~= chunk_events(chunk@));
    out
}

/// Parses and translates the text of one chunk.
pub fn parse_chunk(data: &str) -> (result: Result<Vec<StreamEvent>, String>)
    ensures
        match parsed_text(data@) {
            Ok(chunk) => match result {
                Ok(out) => events(out@) == chunk_events(chunk),
                Err(_) => false,
            },
            Err(message) => match result {
                Ok(_) => false,
                Err(text) => text@ == "json parse: "@ + message,
            },
        },
{
    match Json::parse(data) {
        Ok(chunk) => Ok(translate_chunk(&chunk)),
        Err(message) => {
            let mut text = "json parse: ".to_owned();
            text.append(message.as_str());
            Err(text)
        },
    }
}

/// Handles the data of one server-sent event.
pub fn handle_event(data: &str) -> (result: Result<Vec<StreamEvent>, StreamError>)
    ensures
        if data@ == "[DONE]"@ {
            match result {
                Ok(out) => events(out@) == seq![Event::ResponseStop { usage: None }],
                Err(_) => false,
            }
        } else {
            match parsed_text(data@) {
                Ok(chunk) => match result {
                    Ok(out) => events(out@) == chunk_events(chunk),
                    Err(_) => false,
                },
                Err(message) => match result {
                    Err(StreamError::Decode(text)) => text@ == "json parse: "@ + message,
                    _ => false,
                },
            }
        },
{
    if same_text(data, "[DONE]") {
        let mut out = no_events();
        emit(&mut out, StreamEvent::ResponseStop { usage: None });
        assert(events(out@) =~= seq![Event::ResponseStop { usage: None }]);
        return Ok(out);
    }
    match parse_chunk(data) {
        Ok(out) => Ok(out),
        Err(message) => Err(StreamError::Decode(message)),
    }
}

} // verus!
