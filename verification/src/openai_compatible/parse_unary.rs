//! Turns a complete chat-completions response into canonical events.
use vstd::prelude::*;
use vstd::string::*;

use super::parse_stream::{
    error_event, function_member_or, parse_usage, read_function_member_or, read_start, start_event,
    token_counts,
};
use crate::canonical::{MessageRole, ToolCallId};
use crate::json::{
    array_member, parsed_bytes, str_member, str_member_or, trees, Json, Tree,
};
use crate::lifecycle::{
    all_ended, between_blocks, lemma_observe_concat, lemma_observe_push, nothing_seen, observe_all,
};
use crate::stream::{
    emit, events, no_events, openai_stop, opt_counts, ContentBlockKind, Counts, Event, Stop, StopReason,
    StreamEvent, Usage,
};

verus! {

// ---------------------------------------------------------------------------
// Model
// ---------------------------------------------------------------------------

/// The tool calls of a message.
pub open spec fn message_calls(message: Tree) -> Seq<Tree> {
    match array_member(message, "tool_calls"@) {
        Some(calls) => calls,
        None => seq![],
    }
}

/// Whether a message has text.
pub open spec fn has_text(message: Tree) -> bool {
    match str_member(message, "content"@) {
        Some(text) => text.len() > 0,
        None => false,
    }
}

/// How many blocks a choice becomes.
pub open spec fn choice_blocks(choice: Tree) -> nat {
    match choice.get("message"@) {
        Some(message) => (if has_text(message) {
            1nat
        } else {
            0nat
        }) + message_calls(message).len(),
        None => 0,
    }
}

/// How many blocks the choices become.
pub open spec fn blocks_of(choices: Seq<Tree>) -> nat
    decreases choices.len(),
{
    if choices.len() == 0 {
        0
    } else {
        blocks_of(choices.drop_last()) + choice_blocks(choices.last())
    }
}

/// The block of a tool call.
pub open spec fn call_events(call: Tree, index: u32) -> Seq<Event> {
    seq![
        Event::ContentBlockStart { index, kind: ContentBlockKind::ToolCall },
        Event::ToolCallStart {
            index,
            id: str_member_or(call, "id"@, "call_unknown"@),
            name: function_member_or(call, "name"@, ""@),
        },
        Event::ToolCallArgumentsDelta {
            index,
            json_fragment: function_member_or(call, "arguments"@, "{}"@),
        },
        Event::ToolCallStop { index },
        Event::ContentBlockStop { index },
    ]
}

/// The blocks of tool calls, numbered from `first`.
pub open spec fn calls_events(calls: Seq<Tree>, first: nat) -> Seq<Event>
    decreases calls.len(),
{
    if calls.len() == 0 {
        seq![]
    } else {
        calls_events(calls.drop_last(), first) + call_events(
            calls.last(),
            (first + calls.len() - 1) as u32,
        )
    }
}

/// The block of a message's text.
pub open spec fn text_events(message: Tree, index: u32) -> Seq<Event> {
    if has_text(message) {
        seq![
            Event::ContentBlockStart { index, kind: ContentBlockKind::Text },
            Event::TextDelta { index, text: str_member(message, "content"@)->0 },
            Event::ContentBlockStop { index },
        ]
    } else {
        seq![]
    }
}

/// The blocks of a message, numbered from `first`.
pub open spec fn message_events(message: Tree, first: nat) -> Seq<Event> {
    let after_text = first + (if has_text(message) {
        1nat
    } else {
        0nat
    });
    text_events(message, first as u32) + calls_events(message_calls(message), after_text)
}

/// The blocks of the choices, numbered through.
pub open spec fn choices_events(choices: Seq<Tree>) -> Seq<Event>
    decreases choices.len(),
{
    if choices.len() == 0 {
        seq![]
    } else {
        let before = choices.drop_last();
        choices_events(before) + (match choices.last().get("message"@) {
            Some(message) => message_events(message, blocks_of(before)),
            None => seq![],
        })
    }
}

/// The last reason that a choice names.
pub open spec fn last_stop(choices: Seq<Tree>) -> Stop
    decreases choices.len(),
{
    if choices.len() == 0 {
        Stop::EndTurn
    } else {
        match str_member(choices.last(), "finish_reason"@) {
            Some(reason) => openai_stop(reason),
            None => last_stop(choices.drop_last()),
        }
    }
}

/// The events of a response with choices, ending with the given counts.
pub open spec fn full_events(
    response: Tree,
    choices: Seq<Tree>,
    usage: Option<Counts>,
) -> Seq<Event> {
    (seq![start_event(response), Event::MessageStart { role: MessageRole::Assistant }]
        + choices_events(choices)).push(
        Event::MessageStop { stop_reason: last_stop(choices), stop_sequence: None },
    ).push(Event::ResponseStop { usage })
}

/// What a response translates to, ending with the given counts: the events, or
/// what is wrong with it.
pub open spec fn translated(response: Tree, usage: Option<Counts>) -> Result<Seq<Event>, Seq<char>> {
    match response.get("error"@) {
        Some(error) => Ok(seq![error_event(error)]),
        None => match array_member(response, "choices"@) {
            Some(choices) => Ok(full_events(response, choices, usage)),
            None => Err("missing choices"@),
        },
    }
}

/// Whether the block numbers of a response are representable. An error has
/// none.
pub open spec fn response_fits(response: Tree) -> bool {
    response.get("error"@) is Some || match array_member(response, "choices"@) {
        Some(choices) => blocks_of(choices) <= u32::MAX,
        None => true,
    }
}

// ---------------------------------------------------------------------------
// Operations
// ---------------------------------------------------------------------------

proof fn lemma_blocks_grow(choices: Seq<Tree>, i: int)
    requires
        0 <= i <= choices.len(),
    ensures
        blocks_of(choices.take(i)) <= blocks_of(choices),
    decreases choices.len() - i,
{
    if i < choices.len() {
        assert(choices.take(i + 1).drop_last() =~= choices.take(i));
        lemma_blocks_grow(choices, i + 1);
    } else {
        assert(choices.take(i) =~= choices);
    }
}

fn count_blocks(choice: &Json) -> (text_and_calls: (bool, usize))
    ensures
        choice_blocks(choice@) == (if text_and_calls.0 {
            1nat
        } else {
            0nat
        }) + text_and_calls.1,
{
    match choice.get("message") {
        Some(message) => {
            let text = match message.str_member("content") {
                Some(text) => !text.is_empty(),
                None => false,
            };
            let calls: usize = match message.array_member("tool_calls") {
                Some(calls) => calls.len(),
                None => 0,
            };
            (text, calls)
        },
        None => (false, 0),
    }
}

/// Whether the block numbers of a response are representable.
pub fn block_numbers_fit(response: &Json) -> (fit: bool)
    ensures
        fit == response_fits(response@),
{
    if response.get("error").is_some() {
        return true;
    }
    let choices = match response.array_member("choices") {
        Some(choices) => choices,
        None => {
            return true;
        },
    };
    let ghost all = trees(choices@);
    let mut total: u64 = 0;
    let mut i: usize = 0;
    while i < choices.len()
        invariant
            i <= choices@.len(),
            all == trees(choices@),
            response_fits(response@) == (blocks_of(all) <= u32::MAX),
            total == blocks_of(all.take(i as int)),
            total <= u32::MAX,
        decreases choices.len() - i,
    {
        assert(all[i as int] == choices@[i as int]@);
        let (text, calls) = count_blocks(&choices[i]);
        proof {
            assert(all.take(i + 1).drop_last() =~= all.take(i as int));
            lemma_blocks_grow(all, i + 1);
        }
        if calls > 0xffff_ffff {
            return false;
        }
        let more: u64 = if text {
            calls as u64 + 1
        } else {
            calls as u64
        };
        total = total + more;
        if total > 0xffff_ffff {
            return false;
        }
        i = i + 1;
    }
    assert(all.take(i as int) =~= all);
    true
}

fn push_message(out: &mut Vec<StreamEvent>, message: &Json, first: u32) -> (next: u32)
    requires
        first + (if has_text(message@) {
            1nat
        } else {
            0nat
        }) + message_calls(message@).len() <= u32::MAX,
    ensures
        events(final(out)@) == events(old(out)@) + message_events(message@, first as nat),
        next == first + (if has_text(message@) {
            1nat
        } else {
            0nat
        }) + message_calls(message@).len(),
{
    let ghost start = events(out@);
    let mut index: u32 = first;
    if let Some(text) = message.str_member("content") {
        if !text.is_empty() {
            emit(out, StreamEvent::ContentBlockStart { index, kind: ContentBlockKind::Text });
            emit(out, StreamEvent::TextDelta { index, text: text.to_owned() });
            emit(out, StreamEvent::ContentBlockStop { index });
            index = index + 1;
        }
    }
    let ghost middle = events(out@);
    let ghost after_text = index as nat;
    assert(middle =~= start + text_events(message@, first));
    if let Some(calls) = message.array_member("tool_calls") {
        let ghost all = trees(calls@);
        let mut i: usize = 0;
        assert(middle + calls_events(all.take(0), after_text) =~= middle);
        while i < calls.len()
            invariant
                i <= calls@.len(),
                all == trees(calls@),
                index == after_text + i,
                after_text + all.len() <= u32::MAX,
                events(out@) == middle + calls_events(all.take(i as int), after_text),
            decreases calls.len() - i,
        {
            let call = &calls[i];
            assert(all[i as int] == call@);
            let id = call.str_member_or("id", "call_unknown");
            let name = read_function_member_or(call, "name", "");
            let arguments = read_function_member_or(call, "arguments", "{}");
            emit(out, StreamEvent::ContentBlockStart { index, kind: ContentBlockKind::ToolCall });
            emit(
                out,
                StreamEvent::ToolCallStart {
                    index,
                    id: ToolCallId::from_provider(id.as_str()),
                    name,
                },
            );
            emit(out, StreamEvent::ToolCallArgumentsDelta { index, json_fragment: arguments });
            emit(out, StreamEvent::ToolCallStop { index });
            emit(out, StreamEvent::ContentBlockStop { index });
            proof {
                assert(all.take(i + 1).drop_last() =~= all.take(i as int));
                assert(events(out@) =~= middle + calls_events(all.take(i + 1), after_text));
            }
            index = index + 1;
            i = i + 1;
        }
        assert(all.take(i as int) =~= all);
    }
    assert(events(out@) =~= start + message_events(message@, first as nat));
    index
}

/// Translates a parsed response whose counts were read already.
pub fn translate_response(response: &Json, usage: Option<Usage>) -> (result: Result<
    Vec<StreamEvent>,
    String,
>)
    requires
        response_fits(response@),
    ensures
        match translated(response@, opt_counts(usage)) {
            Ok(wanted) => match result {
                Ok(out) => events(out@) == wanted,
                Err(_) => false,
            },
            Err(message) => match result {
                Ok(_) => false,
                Err(text) => text@ == message,
            },
        },
{
    let mut out = no_events();
    if let Some(error) = response.get("error") {
        let message = error.str_member_or("message", "upstream error");
        emit(&mut out, StreamEvent::Error { message });
        assert(events(out@) =~= seq![error_event(error@)]);
        return Ok(out);
    }
    let choices = match response.array_member("choices") {
        Some(choices) => choices,
        None => {
            return Err("missing choices".to_owned());
        },
    };
    emit(&mut out, read_start(response));
    emit(&mut out, StreamEvent::MessageStart { role: MessageRole::Assistant });
    let ghost begun = events(out@);
    assert(begun =~= seq![
        start_event(response@),
        Event::MessageStart { role: MessageRole::Assistant },
    ]);
    let ghost all = trees(choices@);
    let mut stop_reason = StopReason::EndTurn;
    let mut index: u32 = 0;
    let mut i: usize = 0;
    assert(begun + choices_events(all.take(0)) =~= begun);
    while i < choices.len()
        invariant
            i <= choices@.len(),
            all == trees(choices@),
            blocks_of(all) <= u32::MAX,
            index == blocks_of(all.take(i as int)),
            stop_reason@ == last_stop(all.take(i as int)),
            events(out@) == begun + choices_events(all.take(i as int)),
        decreases choices.len() - i,
    {
        let choice = &choices[i];
        assert(all[i as int] == choice@);
        proof {
            assert(all.take(i + 1).drop_last() =~= all.take(i as int));
            lemma_blocks_grow(all, i + 1);
        }
        if let Some(reason) = choice.str_member("finish_reason") {
            stop_reason = StopReason::from_provider_string(reason);
        }
        if let Some(message) = choice.get("message") {
            index = push_message(&mut out, message, index);
        }
        assert(events(out@) =~= begun + choices_events(all.take(i + 1)));
        i = i + 1;
    }
    assert(all.take(i as int) =~= all);
    emit(&mut out, StreamEvent::MessageStop { stop_reason, stop_sequence: None });
    emit(&mut out, StreamEvent::ResponseStop { usage });
    Ok(out)
}

/// Parses and translates the bytes of a response. There is no result where
/// the block numbers are not representable.
pub fn parse_inner(body: &[u8]) -> (result: Option<Result<Vec<StreamEvent>, String>>)
    ensures
        match parsed_bytes(body@) {
            Err(message) => match result {
                Some(Err(text)) => text@ == "json parse: "@ + message,
                _ => false,
            },
            Ok(response) => if response_fits(response) {
                match (translated(response, token_counts(response)), result) {
                    (Ok(wanted), Some(Ok(out))) => events(out@) == wanted,
                    (Err(message), Some(Err(text))) => text@ == message,
                    _ => false,
                }
            } else {
                result is None
            },
        },
{
    match Json::parse_bytes(body) {
        Err(message) => {
            let mut text = "json parse: ".to_owned();
            text.append(message.as_str());
            Some(Err(text))
        },
        Ok(response) => {
            if block_numbers_fit(&response) {
                let usage = parse_usage(&response);
                Some(translate_response(&response, usage))
            } else {
                None
            }
        },
    }
}

// ---------------------------------------------------------------------------
// Laws
// ---------------------------------------------------------------------------

proof fn lemma_call_block(call: Tree, index: u32)
    ensures
        observe_all(Some(between_blocks()), call_events(call, index)) == Some(between_blocks()),
{
    let out = call_events(call, index);
    reveal_with_fuel(observe_all, 6);
    assert(out.drop_last() =~= out.take(4));
    assert(out.take(4).drop_last() =~= out.take(3));
    assert(out.take(3).drop_last() =~= out.take(2));
    assert(out.take(2).drop_last() =~= out.take(1));
    assert(out.take(1).drop_last() =~= out.take(0));
    let open = Set::<u32>::empty().insert(index);
    assert(open.remove(index) =~= Set::<u32>::empty());
}

proof fn lemma_call_blocks(calls: Seq<Tree>, first: nat)
    ensures
        observe_all(Some(between_blocks()), calls_events(calls, first)) == Some(between_blocks()),
    decreases calls.len(),
{
    if calls.len() > 0 {
        let before = calls_events(calls.drop_last(), first);
        let index = (first + calls.len() - 1) as u32;
        lemma_call_blocks(calls.drop_last(), first);
        lemma_call_block(calls.last(), index);
        lemma_observe_concat(Some(between_blocks()), before, call_events(calls.last(), index));
    }
}

proof fn lemma_message_blocks(message: Tree, first: nat)
    ensures
        observe_all(Some(between_blocks()), message_events(message, first)) == Some(
            between_blocks(),
        ),
{
    let text = text_events(message, first as u32);
    let after_text = first + (if has_text(message) {
        1nat
    } else {
        0nat
    });
    reveal_with_fuel(observe_all, 4);
    if has_text(message) {
        assert(text.drop_last() =~= text.take(2));
        assert(text.take(2).drop_last() =~= text.take(1));
        assert(text.take(1).drop_last() =~= text.take(0));
        let open = Set::<u32>::empty().insert(first as u32);
        assert(open.remove(first as u32) =~= Set::<u32>::empty());
    }
    assert(observe_all(Some(between_blocks()), text) == Some(between_blocks()));
    lemma_call_blocks(message_calls(message), after_text);
    lemma_observe_concat(
        Some(between_blocks()),
        text,
        calls_events(message_calls(message), after_text),
    );
}

proof fn lemma_choice_blocks(choices: Seq<Tree>)
    ensures
        observe_all(Some(between_blocks()), choices_events(choices)) == Some(between_blocks()),
    decreases choices.len(),
{
    if choices.len() > 0 {
        let before = choices.drop_last();
        lemma_choice_blocks(before);
        match choices.last().get("message"@) {
            Some(message) => {
                lemma_message_blocks(message, blocks_of(before));
                lemma_observe_concat(
                    Some(between_blocks()),
                    choices_events(before),
                    message_events(message, blocks_of(before)),
                );
            },
            None => {
                assert(choices_events(choices) =~= choices_events(before));
            },
        }
    }
}

/// A response with choices is translated to a complete envelope: everything
/// is announced, and everything that was announced is ended.
pub proof fn full_response_is_a_complete_envelope(
    response: Tree,
    choices: Seq<Tree>,
    usage: Option<Counts>,
)
    ensures
        observe_all(Some(nothing_seen()), full_events(response, choices, usage)) == Some(
            all_ended(),
        ),
{
    let head = seq![start_event(response), Event::MessageStart { role: MessageRole::Assistant }];
    reveal_with_fuel(observe_all, 3);
    assert(head.drop_last() =~= head.take(1));
    assert(head.take(1).drop_last() =~= head.take(0));
    assert(observe_all(Some(nothing_seen()), head) == Some(between_blocks()));
    lemma_choice_blocks(choices);
    lemma_observe_concat(Some(nothing_seen()), head, choices_events(choices));
    let body = head + choices_events(choices);
    let stop = Event::MessageStop { stop_reason: last_stop(choices), stop_sequence: None };
    lemma_observe_push(Some(nothing_seen()), body, stop);
    lemma_observe_push(
        Some(nothing_seen()),
        body.push(stop),
        Event::ResponseStop { usage },
    );
}

} // verus!
