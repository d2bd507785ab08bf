//! What the events of chat replies say, against the members of the replies, and
//! what the body of a request with the caller's effort says.
use vstd::prelude::*;

use super::encode_request::{encoded_request, resolved_effort};
use super::parse_stream::{
    call_events, calls_events, choice_events, choices_events, chunk_events, delta_events,
    error_event, start_event, token_counts,
};
use super::parse_unary::{
    blocks_of, calls_events as whole_calls, choice_blocks, choices_events as whole_choices,
    last_stop, message_events, response_fits, translated,
};
use crate::canonical::{BackendTarget, CanonicalRequest, MessageRole, ReasoningEffort};
use crate::json::{
    array_member, member_after_optional, member_after_set, member_of_nothing, tag, u32_member,
    u64_member, Tree,
};
use crate::oai_chat_wire::canonical_to_chat::{
    chat_body, encoded_messages, encoded_system, message_tree, message_trees,
};
use crate::stream::{ContentBlockKind, Counts, Event, Stop};

verus! {

// ---------------------------------------------------------------------------
// Streams, chunk by chunk
// ---------------------------------------------------------------------------

/// The text of a member.
pub open spec fn text_at(value: Tree, key: Seq<char>) -> Option<Seq<char>> {
    match value.get(key) {
        Some(Tree::Text(s)) => Some(s),
        _ => None,
    }
}

/// A text inside the `function` member of a call.
pub open spec fn function_text(call: Tree, key: Seq<char>) -> Option<Seq<char>> {
    match call.get("function"@) {
        Some(function) => text_at(function, key),
        None => None,
    }
}

/// The `index` member, or zero.
pub open spec fn number_of(value: Tree) -> u32 {
    match u32_member(value, "index"@) {
        Some(n) => n,
        None => 0,
    }
}

/// The start of a response has its identifier, model and time.
pub open spec fn is_start(event: Event, value: Tree) -> bool {
    event == Event::ResponseStart {
        id: match text_at(value, "id"@) {
            Some(s) => s,
            None => "unknown"@,
        },
        model: match text_at(value, "model"@) {
            Some(s) => s,
            None => "unknown"@,
        },
        created_at_unix: match u64_member(value, "created"@) {
            Some(n) => n,
            None => 0,
        },
    }
}

/// Counts of the tokens of the prompt and of the completion, and no others.
pub open spec fn are_counts(c: Counts, u: Tree) -> bool {
    &&& c.input_tokens == u32_member(u, "prompt_tokens"@)
    &&& c.output_tokens == u32_member(u, "completion_tokens"@)
    &&& c.cache_creation_input_tokens is None
    &&& c.cache_read_input_tokens is None
    &&& c.reasoning_tokens is None
    &&& !c.estimated
    &&& c.provider_raw is None
}

/// The counts of a value are those of its `usage` member, each under its name.
pub proof fn usage_is_told(value: Tree)
    ensures
        match (value.get("usage"@), token_counts(value)) {
            (Some(u), Some(c)) => are_counts(c, u),
            (None, None) => true,
            _ => false,
        },
{
}

/// A chunk that is an error is told by its message alone. Any other is told by
/// the start of the response, its choices, and its usage unless that is `null`.
pub proof fn chunk_is_told(chunk: Tree)
    ensures
        match chunk.get("error"@) {
            Some(error) => chunk_events(chunk) == seq![
                Event::Error {
                    message: match text_at(error, "message"@) {
                        Some(s) => s,
                        None => "upstream error"@,
                    },
                },
            ],
            None => {
                let out = chunk_events(chunk);
                let choices = match array_member(chunk, "choices"@) {
                    Some(choices) => choices_events(choices),
                    None => Seq::<Event>::empty(),
                };
                let used = token_counts(chunk) is Some && !(array_member(chunk, "choices"@) is Some
                    && chunk.get("usage"@) == Some(Tree::Null));
                &&& is_start(out[0], chunk)
                &&& out.subrange(1, 1int + choices.len()) == choices
                &&& out.len() == 1 + choices.len() + (if used {
                    1int
                } else {
                    0int
                })
                &&& used ==> out.last() == Event::UsageDelta { usage: token_counts(chunk)->0 }
            },
        },
        is_start(start_event(chunk), chunk),
        error_event(chunk) == (Event::Error {
            message: match text_at(chunk, "message"@) {
                Some(s) => s,
                None => "upstream error"@,
            },
        }),
{
    if chunk.get("error"@) is None {
        let choices = match array_member(chunk, "choices"@) {
            Some(choices) => choices_events(choices),
            None => Seq::<Event>::empty(),
        };
        assert(chunk_events(chunk).subrange(1, 1int + choices.len()) =~= choices);
    }
}

/// The meaning of a finish reason.
pub open spec fn finish_meaning(reason: Seq<char>) -> Stop {
    if reason == "stop"@ {
        Stop::EndTurn
    } else if reason == "length"@ {
        Stop::MaxTokens
    } else if reason == "tool_calls"@ || reason == "function_call"@ {
        Stop::ToolUse
    } else if reason == "content_filter"@ {
        Stop::ContentFilter
    } else {
        Stop::Other(reason)
    }
}

/// Choices are told one after another. A choice is told by the stop of its
/// finish reason and then its delta: the start of its role, its text in a block
/// of the choice's number, and its calls.
pub proof fn choices_are_told_in_order(choices: Seq<Tree>, choice: Tree)
    ensures
        choices_events(Seq::empty()).len() == 0,
        choices_events(choices.push(choice)) == choices_events(choices) + choice_events(choice),
        ({
            let index = number_of(choice);
            let stopped: Seq<Event> = match text_at(choice, "finish_reason"@) {
                Some(reason) if reason.len() > 0 => seq![
                    Event::MessageStop {
                        stop_reason: finish_meaning(reason),
                        stop_sequence: None,
                    },
                ],
                _ => seq![],
            };
            match choice.get("delta"@) {
                None => choice_events(choice) == stopped,
                Some(delta) => {
                    let announced: Seq<Event> = match text_at(delta, "role"@) {
                        Some(role) => seq![
                            Event::MessageStart {
                                role: if role == "user"@ {
                                    MessageRole::User
                                } else {
                                    MessageRole::Assistant
                                },
                            },
                        ],
                        None => seq![],
                    };
                    let spoken: Seq<Event> = match text_at(delta, "content"@) {
                        Some(text) if text.len() > 0 => seq![
                            Event::ContentBlockStart { index, kind: ContentBlockKind::Text },
                            Event::TextDelta { index, text },
                            Event::ContentBlockStop { index },
                        ],
                        _ => seq![],
                    };
                    let called: Seq<Event> = match array_member(delta, "tool_calls"@) {
                        Some(calls) => calls_events(calls),
                        None => seq![],
                    };
                    choice_events(choice) == stopped + (announced + spoken + called)
                },
            }
        }),
{
    assert(choices.push(choice).drop_last() =~= choices);
    if let Some(delta) = choice.get("delta"@) {
        let index = number_of(choice);
        let announced: Seq<Event> = match text_at(delta, "role"@) {
            Some(role) => seq![
                Event::MessageStart {
                    role: if role == "user"@ {
                        MessageRole::User
                    } else {
                        MessageRole::Assistant
                    },
                },
            ],
            None => seq![],
        };
        let spoken: Seq<Event> = match text_at(delta, "content"@) {
            Some(text) if text.len() > 0 => seq![
                Event::ContentBlockStart { index, kind: ContentBlockKind::Text },
                Event::TextDelta { index, text },
                Event::ContentBlockStop { index },
            ],
            _ => seq![],
        };
        let called: Seq<Event> = match array_member(delta, "tool_calls"@) {
            Some(calls) => calls_events(calls),
            None => seq![],
        };
        assert(delta_events(delta, index) =~= announced + spoken + called);
    } else {
        assert(choice_events(choice) =~= choice_events(choice) + Seq::<Event>::empty());
    }
}

/// Calls are told one after another, each under its own number: announced under
/// its identifier and name if it has an identifier, and extended by what it has
/// of its arguments.
pub proof fn calls_are_told_in_order(calls: Seq<Tree>, call: Tree)
    ensures
        calls_events(Seq::empty()).len() == 0,
        calls_events(calls.push(call)) == calls_events(calls) + call_events(call),
        ({
            let index = number_of(call);
            let opened: Seq<Event> = match text_at(call, "id"@) {
                Some(id) => seq![
                    Event::ContentBlockStart { index, kind: ContentBlockKind::ToolCall },
                    Event::ToolCallStart {
                        index,
                        id,
                        name: match function_text(call, "name"@) {
                            Some(name) => name,
                            None => seq![],
                        },
                    },
                ],
                None => seq![],
            };
            let extended: Seq<Event> = match function_text(call, "arguments"@) {
                Some(text) if text.len() > 0 => seq![
                    Event::ToolCallArgumentsDelta { index, json_fragment: text },
                ],
                _ => seq![],
            };
            call_events(call) == opened + extended
        }),
{
    reveal_strlit("");
    assert(""@ =~= seq![]);
    assert(calls.push(call).drop_last() =~= calls);
}

// ---------------------------------------------------------------------------
// Whole replies
// ---------------------------------------------------------------------------

/// A whole reply that is an error is told by its message alone; one without
/// choices cannot be told; any other is announced, told block by block, and
/// ended with the last finish reason that a choice names and with the given
/// counts.
pub proof fn whole_reply_is_framed(response: Tree, usage: Option<Counts>)
    ensures
        match (response.get("error"@), array_member(response, "choices"@)) {
            (Some(error), _) => translated(response, usage) == Ok::<Seq<Event>, Seq<char>>(
                seq![
                    Event::Error {
                        message: match text_at(error, "message"@) {
                            Some(s) => s,
                            None => "upstream error"@,
                        },
                    },
                ],
            ),
            (None, None) => translated(response, usage) == Err::<Seq<Event>, Seq<char>>(
                "missing choices"@,
            ),
            (None, Some(choices)) => match translated(response, usage) {
                Ok(out) => {
                    let n = out.len() as int;
                    &&& n == whole_choices(choices).len() + 4
                    &&& is_start(out[0], response)
                    &&& out[1] == Event::MessageStart { role: MessageRole::Assistant }
                    &&& out.subrange(2, n - 2) == whole_choices(choices)
                    &&& out[n - 2] == Event::MessageStop {
                        stop_reason: last_stop(choices),
                        stop_sequence: None,
                    }
                    &&& out[n - 1] == Event::ResponseStop { usage }
                },
                Err(_) => false,
            },
        },
        response_fits(response) <==> response.get("error"@) is Some || match array_member(
            response,
            "choices"@,
        ) {
            Some(choices) => blocks_of(choices) <= u32::MAX,
            None => true,
        },
{
    if let Ok(out) = translated(response, usage) {
        if let (None, Some(choices)) = (response.get("error"@), array_member(response, "choices"@)) {
            assert(out.subrange(2, out.len() - 2) =~= whole_choices(choices));
        }
    }
}

/// The last finish reason that a choice names counts, and a turn without one
/// ended by itself.
pub proof fn last_reason_counts(choices: Seq<Tree>, choice: Tree)
    ensures
        last_stop(Seq::empty()) == Stop::EndTurn,
        last_stop(choices.push(choice)) == (match text_at(choice, "finish_reason"@) {
            Some(reason) => finish_meaning(reason),
            None => last_stop(choices),
        }),
{
    assert(choices.push(choice).drop_last() =~= choices);
}

/// Choices are told one after another, their blocks numbered through.
pub proof fn whole_choices_are_told_in_order(choices: Seq<Tree>, choice: Tree)
    ensures
        whole_choices(Seq::empty()).len() == 0,
        blocks_of(Seq::empty()) == 0,
        blocks_of(choices.push(choice)) == blocks_of(choices) + choice_blocks(choice),
        match choice.get("message"@) {
            None => {
                &&& whole_choices(choices.push(choice)) == whole_choices(choices)
                &&& choice_blocks(choice) == 0
            },
            Some(message) => {
                let says = text_at(message, "content"@) is Some && text_at(
                    message,
                    "content"@,
                )->0.len() > 0;
                let calls = match array_member(message, "tool_calls"@) {
                    Some(calls) => calls,
                    None => Seq::<Tree>::empty(),
                };
                let first = blocks_of(choices);
                let index = first as u32;
                let text: Seq<Event> = if says {
                    seq![
                        Event::ContentBlockStart { index, kind: ContentBlockKind::Text },
                        Event::TextDelta { index, text: text_at(message, "content"@)->0 },
                        Event::ContentBlockStop { index },
                    ]
                } else {
                    seq![]
                };
                let used: nat = if says {
                    1
                } else {
                    0
                };
                &&& choice_blocks(choice) == used + calls.len()
                &&& whole_choices(choices.push(choice)) == whole_choices(choices) + (text
                    + whole_calls(calls, first + used))
            },
        },
{
    assert(choices.push(choice).drop_last() =~= choices);
    if let Some(message) = choice.get("message"@) {
        let first = blocks_of(choices);
        assert(whole_choices(choices.push(choice)) == whole_choices(choices) + message_events(
            message,
            first,
        ));
    } else {
        assert(whole_choices(choices) + Seq::<Event>::empty() =~= whole_choices(choices));
    }
}

/// Each call of a whole reply is a whole block under the next number: its
/// identifier, its name and its arguments, each as it stands, then its stop and
/// that of its block.
pub proof fn whole_call_adds_its_block(calls: Seq<Tree>, call: Tree, first: nat)
    requires
        first + calls.len() <= u32::MAX,
    ensures
        whole_calls(Seq::empty(), first).len() == 0,
        ({
            let index = (first + calls.len()) as u32;
            whole_calls(calls.push(call), first) == whole_calls(calls, first) + seq![
                Event::ContentBlockStart { index, kind: ContentBlockKind::ToolCall },
                Event::ToolCallStart {
                    index,
                    id: match text_at(call, "id"@) {
                        Some(id) => id,
                        None => "call_unknown"@,
                    },
                    name: match function_text(call, "name"@) {
                        Some(name) => name,
                        None => seq![],
                    },
                },
                Event::ToolCallArgumentsDelta {
                    index,
                    json_fragment: match function_text(call, "arguments"@) {
                        Some(text) => text,
                        None => "{}"@,
                    },
                },
                Event::ToolCallStop { index },
                Event::ContentBlockStop { index },
            ]
        }),
{
    reveal_strlit("");
    assert(""@ =~= seq![]);
    assert(calls.push(call).drop_last() =~= calls);
}

// ---------------------------------------------------------------------------
// Requests with the caller's effort
// ---------------------------------------------------------------------------

/// The body of a request with the caller's effort is the chat body, but for the
/// effort and for the messages.
pub proof fn body_is_the_chat_body(
    request: CanonicalRequest,
    target: BackendTarget,
    key: Seq<char>,
)
    requires
        key != "reasoning_effort"@,
        key != "messages"@,
    ensures
        encoded_request(request, target).get(key) == chat_body(request, target, false).get(key),
{
    broadcast use {member_after_optional, member_after_set, member_of_nothing};

}

/// The effort is the caller's under its own name, or else the route's.
pub proof fn effort_is_read_back(request: CanonicalRequest, target: BackendTarget)
    ensures
        ({
            let own = match request.generation.reasoning {
                Some(options) => options.effort,
                None => None,
            };
            let effort = if own is Some {
                own
            } else {
                target.policy.default_reasoning_effort
            };
            &&& encoded_request(request, target).get("reasoning_effort"@) == (match effort {
                None => None,
                Some(ReasoningEffort::Minimal) => Some(Tree::Text("minimal"@)),
                Some(ReasoningEffort::Low) => Some(Tree::Text("low"@)),
                Some(ReasoningEffort::Medium) => Some(Tree::Text("medium"@)),
                Some(ReasoningEffort::High) => Some(Tree::Text("high"@)),
                Some(ReasoningEffort::Xhigh) => Some(Tree::Text("xhigh"@)),
                Some(ReasoningEffort::Max) => Some(Tree::Text("max"@)),
            })
            &&& effort == resolved_effort(request, target)
        }),
{
    broadcast use {member_after_optional, member_after_set, member_of_nothing};

    lemma_names();
}

/// The messages are those of the system instructions and, behind them, those of
/// the conversation, which leave raw bytes out.
pub proof fn messages_are_read_back(request: CanonicalRequest, target: BackendTarget)
    ensures
        match encoded_request(request, target).get("messages"@) {
            Some(Tree::Array(items)) => {
                let n = request.system@.len() as int;
                &&& items.len() >= n
                &&& forall|i: int|
                    0 <= i < n ==> #[trigger] items[i] == message_tree(
                        encoded_system(request.system@[i]),
                    )
                &&& items.skip(n) == message_trees(encoded_messages(request.messages@, false))
            },
            _ => false,
        },
{
    broadcast use {member_after_optional, member_after_set, member_of_nothing};

    lemma_names();
    let n = request.system@.len() as int;
    let items = message_trees(
        crate::oai_chat_wire::canonical_to_chat::all_messages(request, false),
    );
    assert(encoded_request(request, target).get("messages"@) == Some(Tree::Array(items)));
    assert(items.skip(n) =~= message_trees(encoded_messages(request.messages@, false)));
}

/// The names of the members of a body differ.
proof fn lemma_names()
    ensures
        tag("model"@) == 6100108,
        tag("messages"@) == 9099815,
        tag("max_tokens"@) == 11101215,
        tag("temperature"@) == 12171501,
        tag("top_p"@) == 6171312,
        tag("presence_penalty"@) == 17129621,
        tag("frequency_penalty"@) == 18032221,
        tag("stop"@) == 5161212,
        tag("seed"@) == 5160200,
        tag("response_format"@) == 16150216,
        tag("tools"@) == 6171215,
        tag("tool_choice"@) == 12170001,
        tag("stream"@) == 7160209,
        tag("stream_options"@) == 15161215,
        tag("reasoning_effort"@) == 17150416,
        tag("thinking"@) == 9170803,
{
    reveal_strlit("model");
    reveal_strlit("messages");
    reveal_strlit("max_tokens");
    reveal_strlit("temperature");
    reveal_strlit("top_p");
    reveal_strlit("presence_penalty");
    reveal_strlit("frequency_penalty");
    reveal_strlit("stop");
    reveal_strlit("seed");
    reveal_strlit("response_format");
    reveal_strlit("tools");
    reveal_strlit("tool_choice");
    reveal_strlit("stream");
    reveal_strlit("stream_options");
    reveal_strlit("reasoning_effort");
    reveal_strlit("thinking");
}

} // verus!
