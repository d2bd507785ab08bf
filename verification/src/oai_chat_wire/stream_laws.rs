//! What the events of a chat stream say, against the members of its chunks.
use vstd::prelude::*;

use super::chat_sse_parser::{
    call_index, chunk_fits, fresh, initial_state, tool_stops, usage_of, ChatState, Run,
};
use crate::canonical::MessageRole;
use crate::json::{array_member, str_member, u32_member, u64_member, Tree};
use crate::stream::{ContentBlockKind, Event, Stop};

verus! {

/// The number that the upstream gave a tool call.
pub open spec fn upstream_number(call: Tree) -> int {
    match u32_member(call, "index"@) {
        Some(n) => n as int,
        None => 0,
    }
}

/// A text inside the `function` member of a call.
pub open spec fn function_text(call: Tree, key: Seq<char>) -> Option<Seq<char>> {
    match call.get("function"@) {
        Some(function) => match function.get(key) {
            Some(Tree::Text(s)) => Some(s),
            _ => None,
        },
        None => None,
    }
}

/// The events of one tool call. Its block is the one behind that of its
/// upstream number: a call with an identifier opens the block unless it is open
/// and is announced in it under its identifier and name, and what it has of its
/// arguments goes to the same block.
pub proof fn call_goes_to_its_own_block(run: Run, call: Tree)
    requires
        upstream_number(call) < u32::MAX,
    ensures
        ({
            let after = run.call(call);
            let index = (upstream_number(call) + 1) as u32;
            let opened: Seq<Event> = match str_member(call, "id"@) {
                Some(id) => {
                    let start = Event::ToolCallStart {
                        index,
                        id,
                        name: match function_text(call, "name"@) {
                            Some(name) => name,
                            None => seq![],
                        },
                    };
                    if run.state.open_tools.contains(index) {
                        seq![start]
                    } else {
                        seq![
                            Event::ContentBlockStart { index, kind: ContentBlockKind::ToolCall },
                            start,
                        ]
                    }
                },
                None => seq![],
            };
            let extended: Seq<Event> = match function_text(call, "arguments"@) {
                Some(text) => if text.len() > 0 {
                    seq![Event::ToolCallArgumentsDelta { index, json_fragment: text }]
                } else {
                    seq![]
                },
                None => seq![],
            };
            &&& after.out == run.out + opened + extended
            &&& after.state.open_tools.contains(index) == (run.state.open_tools.contains(index)
                || str_member(call, "id"@) is Some)
            &&& forall|other: u32|
                other != index ==> (#[trigger] after.state.open_tools.contains(other)
                    == run.state.open_tools.contains(other))
        }),
{
    reveal_strlit("");
    assert(""@ =~= seq![]);
    let after = run.call(call);
    let index = (upstream_number(call) + 1) as u32;
    let tools = run.state.open_tools;
    if str_member(call, "id"@) is Some && !tools.contains(index) {
        assert(after.state.open_tools == tools.push(index));
        assert(tools.push(index).last() == index);
        assert forall|other: u32| other != index implies (#[trigger] after.state.open_tools.contains(
            other,
        ) == tools.contains(other)) by {
            if tools.contains(other) {
                let j = choose|j: int| 0 <= j < tools.len() && tools[j] == other;
                assert(tools.push(index)[j] == other);
            }
        }
    }
    let opened: Seq<Event> = match str_member(call, "id"@) {
        Some(id) => {
            let start = Event::ToolCallStart {
                index,
                id,
                name: match function_text(call, "name"@) {
                    Some(name) => name,
                    None => seq![],
                },
            };
            if tools.contains(index) {
                seq![start]
            } else {
                seq![
                    Event::ContentBlockStart { index, kind: ContentBlockKind::ToolCall },
                    start,
                ]
            }
        },
        None => seq![],
    };
    let extended: Seq<Event> = match function_text(call, "arguments"@) {
        Some(text) => if text.len() > 0 {
            seq![Event::ToolCallArgumentsDelta { index, json_fragment: text }]
        } else {
            seq![]
        },
        None => seq![],
    };
    assert(after.out =~= run.out + opened + extended);
}

/// Two calls of different upstream numbers never share a block: what one of
/// them announces or extends has a number that nothing of the other has.
pub proof fn calls_do_not_share_blocks(a: Run, b: Run, one: Tree, other: Tree, i: int, j: int)
    requires
        upstream_number(one) < u32::MAX,
        upstream_number(other) < u32::MAX,
        upstream_number(one) != upstream_number(other),
        a.out.len() <= i < a.call(one).out.len(),
        b.out.len() <= j < b.call(other).out.len(),
    ensures
        block_of(a.call(one).out[i]) is Some,
        block_of(b.call(other).out[j]) is Some,
        block_of(a.call(one).out[i]) != block_of(b.call(other).out[j]),
{
    call_goes_to_its_own_block(a, one);
    call_goes_to_its_own_block(b, other);
}

/// The block that an event is about.
pub open spec fn block_of(event: Event) -> Option<u32> {
    match event {
        Event::ContentBlockStart { index, .. } => Some(index),
        Event::TextDelta { index, .. } => Some(index),
        Event::ReasoningDelta { index, .. } => Some(index),
        Event::ToolCallStart { index, .. } => Some(index),
        Event::ToolCallArgumentsDelta { index, .. } => Some(index),
        Event::ToolCallStop { index } => Some(index),
        Event::ContentBlockStop { index } => Some(index),
        _ => None,
    }
}

/// Exactly the chunks without an error and with a call of the last number that
/// can be represented do not fit.
pub proof fn only_the_last_number_does_not_fit(chunk: Tree)
    ensures
        chunk_fits(chunk) <==> chunk.get("error"@) is Some || !exists|c: int, k: int|
            #[trigger] is_last_number(chunk, c, k),
{
    if chunk.get("error"@) is None {
        if exists|c: int, k: int| #[trigger] is_last_number(chunk, c, k) {
            let (c, k) = choose|c: int, k: int| #[trigger] is_last_number(chunk, c, k);
            let choices = array_member(chunk, "choices"@)->0;
            let calls = array_member(choices[c].get("delta"@)->0, "tool_calls"@)->0;
            assert(!(call_index(calls[k]) < u32::MAX));
            assert(!super::chat_sse_parser::choice_fits(choices[c]));
        } else if !chunk_fits(chunk) {
            let choices = array_member(chunk, "choices"@)->0;
            let c = choose|c: int|
                0 <= c < choices.len() && !super::chat_sse_parser::choice_fits(
                    #[trigger] choices[c],
                );
            let calls = array_member(choices[c].get("delta"@)->0, "tool_calls"@)->0;
            let k = choose|k: int|
                0 <= k < calls.len() && !(call_index(#[trigger] calls[k]) < u32::MAX);
            assert(is_last_number(chunk, c, k));
        }
    }
}

/// Whether a call of a chunk has the last number that can be represented.
pub open spec fn is_last_number(chunk: Tree, c: int, k: int) -> bool {
    match array_member(chunk, "choices"@) {
        Some(choices) => 0 <= c < choices.len() && match choices[c].get("delta"@) {
            Some(delta) => match array_member(delta, "tool_calls"@) {
                Some(calls) => 0 <= k < calls.len() && upstream_number(calls[k]) == u32::MAX,
                None => false,
            },
            None => false,
        },
        None => false,
    }
}

/// Calls and choices are handled one after another; of a choice, what it says
/// comes before its end.
pub proof fn calls_and_choices_come_in_order(
    run: Run,
    calls: Seq<Tree>,
    call: Tree,
    choices: Seq<Tree>,
    choice: Tree,
)
    ensures
        run.each_call(Seq::empty()) == run,
        run.each_call(calls.push(call)) == run.each_call(calls).call(call),
        run.each_choice(Seq::empty()) == run,
        run.each_choice(choices.push(choice)) == run.each_choice(choices).delta(choice).finish(
            choice,
        ),
{
    assert(calls.push(call).drop_last() =~= calls);
    assert(choices.push(choice).drop_last() =~= choices);
}

/// A message is announced by the first delta that has a role, says something or
/// has tool calls, and only once.
pub open spec fn announcement(state: ChatState) -> Seq<Event> {
    if state.message_start {
        seq![]
    } else {
        seq![Event::MessageStart { role: MessageRole::Assistant }]
    }
}

/// A delta's text goes to block zero, which is opened for it unless it is open.
pub proof fn text_goes_to_block_zero(run: Run, delta: Tree)
    ensures
        match str_member(delta, "content"@) {
            Some(text) if text.len() > 0 => {
                let after = run.content(delta);
                let opened: Seq<Event> = if run.state.text_open {
                    seq![]
                } else {
                    seq![Event::ContentBlockStart { index: 0, kind: ContentBlockKind::Text }]
                };
                &&& after.out == run.out + announcement(run.state) + opened + seq![
                    Event::TextDelta { index: 0, text },
                ]
                &&& after.state.message_start
                &&& after.state.text_open
            },
            _ => run.content(delta) == run,
        },
{
    if let Some(text) = str_member(delta, "content"@) {
        if text.len() > 0 {
            let opened: Seq<Event> = if run.state.text_open {
                seq![]
            } else {
                seq![Event::ContentBlockStart { index: 0, kind: ContentBlockKind::Text }]
            };
            assert(run.content(delta).out =~= run.out + announcement(run.state) + opened + seq![
                Event::TextDelta { index: 0, text },
            ]);
        }
    }
}

/// A delta: its role announces the message, then comes its text, and then, once
/// the text block is closed, its calls.
pub proof fn delta_is_told_in_order(run: Run, choice: Tree)
    ensures
        match choice.get("delta"@) {
            None => run.delta(choice) == run,
            Some(delta) => {
                let spoken = (if str_member(delta, "role"@) is Some {
                    run.start_message()
                } else {
                    run
                }).content(delta);
                match array_member(delta, "tool_calls"@) {
                    None => run.delta(choice) == spoken,
                    Some(calls) => {
                        let ready = spoken.start_message().close_text();
                        let closed: Seq<Event> = if spoken.state.text_open {
                            seq![Event::ContentBlockStop { index: 0 }]
                        } else {
                            seq![]
                        };
                        &&& run.delta(choice) == ready.each_call(calls)
                        &&& ready.out == spoken.out + announcement(spoken.state) + closed
                        &&& ready.state.message_start
                        &&& !ready.state.text_open
                    },
                }
            },
        },
        run.start_message().out == run.out + announcement(run.state),
        run.start_message().state.message_start,
{
    assert(run.start_message().out =~= run.out + announcement(run.state));
    if let Some(delta) = choice.get("delta"@) {
        let spoken = run.role(delta).content(delta);
        let closed: Seq<Event> = if spoken.state.text_open {
            seq![Event::ContentBlockStop { index: 0 }]
        } else {
            seq![]
        };
        assert(spoken.start_message().close_text().out =~= spoken.out + announcement(spoken.state)
            + closed);
    }
}

/// The meaning of a finish reason.
pub open spec fn finish_meaning(reason: Seq<char>) -> Stop {
    if reason == "stop"@ {
        Stop::EndTurn
    } else if reason == "length"@ {
        Stop::MaxTokens
    } else if reason == "tool_calls"@ || reason == "function_call"@ {
        Stop::ToolUse
    } else if reason == "content_filter"@ {
        Stop::ContentFilter
    } else {
        Stop::Other(reason)
    }
}

/// A finish reason closes the text block, then every call and its block in the
/// order in which they opened, and stops the message for that reason unless it
/// has stopped.
pub proof fn finish_closes_and_stops(run: Run, choice: Tree)
    ensures
        match str_member(choice, "finish_reason"@) {
            Some(reason) if reason.len() > 0 => {
                let after = run.finish(choice);
                let closed: Seq<Event> = if run.state.text_open {
                    seq![Event::ContentBlockStop { index: 0 }]
                } else {
                    seq![]
                };
                let stopped: Seq<Event> = if run.state.message_stop {
                    seq![]
                } else {
                    seq![
                        Event::MessageStop {
                            stop_reason: finish_meaning(reason),
                            stop_sequence: None,
                        },
                    ]
                };
                &&& after.out == run.out + closed + tool_stops(run.state.open_tools) + stopped
                &&& !after.state.text_open
                &&& after.state.open_tools.len() == 0
                &&& after.state.message_stop
                &&& after.state.completed
            },
            _ => run.finish(choice) == run,
        },
{
    if let Some(reason) = str_member(choice, "finish_reason"@) {
        if reason.len() > 0 {
            let closed: Seq<Event> = if run.state.text_open {
                seq![Event::ContentBlockStop { index: 0 }]
            } else {
                seq![]
            };
            let stopped: Seq<Event> = if run.state.message_stop {
                seq![]
            } else {
                seq![
                    Event::MessageStop {
                        stop_reason: finish_meaning(reason),
                        stop_sequence: None,
                    },
                ]
            };
            assert(run.finish(choice).out =~= run.out + closed + tool_stops(run.state.open_tools)
                + stopped);
        }
    }
}

/// Each open call stops, and then its block, in order.
pub proof fn calls_stop_in_order(tools: Seq<u32>, tool: u32)
    ensures
        tool_stops(Seq::empty()).len() == 0,
        tool_stops(tools.push(tool)) == tool_stops(tools) + seq![
            Event::ToolCallStop { index: tool },
            Event::ContentBlockStop { index: tool },
        ],
{
    assert(tools.push(tool).drop_last() =~= tools);
    assert(tool_stops(tools.push(tool)) =~= tool_stops(tools) + seq![
        Event::ToolCallStop { index: tool },
        Event::ContentBlockStop { index: tool },
    ]);
}

/// A count that a member reports.
pub open spec fn counted(count: Option<u32>, value: Tree, key: Seq<char>) -> bool {
    count == u32_member(value, key)
}

/// The usage of a chunk is told count by count, each from its own member. The
/// tokens read from a cache stand under one name or, where that is missing,
/// under the other.
pub proof fn usage_is_told(run: Run, chunk: Tree)
    ensures
        match chunk.get("usage"@) {
            None => run.usage(chunk) == run,
            Some(u) => {
                let after = run.usage(chunk);
                &&& after.state == run.state
                &&& after.out.len() == run.out.len() + 1
                &&& after.out.drop_last() == run.out
                &&& match after.out.last() {
                    Event::UsageDelta { usage } => {
                        &&& counted(usage.input_tokens, u, "prompt_tokens"@)
                        &&& counted(usage.output_tokens, u, "completion_tokens"@)
                        &&& counted(
                            usage.cache_creation_input_tokens,
                            u,
                            "cache_creation_input_tokens"@,
                        )
                        &&& if u.get("cache_read_input_tokens"@) is Some {
                            counted(usage.cache_read_input_tokens, u, "cache_read_input_tokens"@)
                        } else {
                            match u.get("prompt_tokens_details"@) {
                                Some(d) => counted(
                                    usage.cache_read_input_tokens,
                                    d,
                                    "cached_tokens"@,
                                ),
                                None => usage.cache_read_input_tokens is None,
                            }
                        }
                        &&& usage.reasoning_tokens is None
                        &&& !usage.estimated
                        &&& usage.provider_raw is None
                    },
                    _ => false,
                }
            },
        },
{
    if let Some(u) = usage_of(chunk) {
        assert(run.usage(chunk).out.drop_last() =~= run.out);
    }
}

/// A chunk. An error is told as its message and nothing else; any other chunk
/// announces the response, if it is the first, under its identifier, model and
/// time, and then tells its choices and its usage.
pub proof fn chunk_is_told_in_order(run: Run, chunk: Tree)
    ensures
        match chunk.get("error"@) {
            Some(error) => {
                &&& run.chunk(chunk).state == run.state
                &&& run.chunk(chunk).out == run.out.push(
                    Event::Error {
                        message: match error.get("message"@) {
                            Some(Tree::Text(s)) => s,
                            _ => "upstream error"@,
                        },
                    },
                )
            },
            None => {
                let id = match chunk.get("id"@) {
                    Some(Tree::Text(s)) => s,
                    _ => "unknown"@,
                };
                let model = match chunk.get("model"@) {
                    Some(Tree::Text(s)) => s,
                    _ => "unknown"@,
                };
                let created_at_unix = match u64_member(chunk, "created"@) {
                    Some(n) => n,
                    None => 0,
                };
                let begun = if run.state.response_start {
                    run
                } else {
                    Run {
                        state: ChatState { response_start: true, id, model, ..run.state },
                        out: run.out.push(Event::ResponseStart { id, model, created_at_unix }),
                    }
                };
                match array_member(chunk, "choices"@) {
                    None => run.chunk(chunk) == begun.usage(chunk),
                    Some(choices) => run.chunk(chunk) == (if chunk.get("usage"@) == Some(
                        Tree::Null,
                    ) {
                        begun.each_choice(choices)
                    } else {
                        begun.each_choice(choices).usage(chunk)
                    }),
                }
            },
        },
{
}

/// The events that close the text block, the message and the response, where
/// these are open.
pub open spec fn closing(s: ChatState) -> Seq<Event> {
    let closed: Seq<Event> = if s.text_open {
        seq![Event::ContentBlockStop { index: 0 }]
    } else {
        seq![]
    };
    let stopped: Seq<Event> = if s.message_stop {
        seq![]
    } else {
        seq![Event::MessageStop { stop_reason: Stop::EndTurn, stop_sequence: None }]
    };
    let ended: Seq<Event> = if s.response_stop {
        seq![]
    } else {
        seq![Event::ResponseStop { usage: None }]
    };
    closed + tool_stops(s.open_tools) + stopped + ended
}

proof fn lemma_closing(run: Run)
    ensures
        run.start_message().close_text().close_tools().stop_message(
            Stop::EndTurn,
        ).stop_response().out == run.out + (announcement(run.state) + closing(run.state)),
{
    let s = run.state;
    let stops = tool_stops(s.open_tools);
    let started = run.start_message();
    assert(started.out =~= run.out + announcement(s));
    let closed = started.close_text();
    let text: Seq<Event> = if s.text_open {
        seq![Event::ContentBlockStop { index: 0 }]
    } else {
        seq![]
    };
    assert(closed.out =~= started.out + text);
    let without = closed.close_tools();
    assert(without.out == closed.out + stops);
    let stopped = without.stop_message(Stop::EndTurn);
    let message: Seq<Event> = if s.message_stop {
        seq![]
    } else {
        seq![Event::MessageStop { stop_reason: Stop::EndTurn, stop_sequence: None }]
    };
    assert(stopped.out =~= without.out + message);
    let ended = stopped.stop_response();
    let response: Seq<Event> = if s.response_stop {
        seq![]
    } else {
        seq![Event::ResponseStop { usage: None }]
    };
    assert(ended.out =~= stopped.out + response);
    assert(ended.out =~= run.out + (announcement(s) + (text + stops + message + response)));
}

/// The end of the stream supplies, in order, whatever is missing: the
/// announcements, the closing of every block, and the stops of the message and
/// of the response. The end of the transport does so only for a response that
/// was announced and has not ended.
pub proof fn ends_supply_what_is_missing(run: Run)
    ensures
        ({
            let s = run.state;
            let announced: Seq<Event> = if s.response_start {
                seq![]
            } else {
                seq![Event::ResponseStart { id: s.id, model: s.model, created_at_unix: 0 }]
            };
            let rest = announcement(s) + closing(s);
            &&& run.done().out == run.out + (announced + rest)
            &&& run.finalized().out == (if s.response_start && !s.response_stop {
                run.out + rest
            } else {
                run.out
            })
        }),
        fresh(initial_state()).out.len() == 0,
{
    let s = run.state;
    let announced: Seq<Event> = if s.response_start {
        seq![]
    } else {
        seq![Event::ResponseStart { id: s.id, model: s.model, created_at_unix: 0 }]
    };
    let first = run.respond(s.id, s.model, 0);
    assert(first.out =~= run.out + announced);
    lemma_closing(first);
    lemma_closing(run);
    let rest = announcement(s) + closing(s);
    assert(run.done().out == first.out + rest);
    assert(first.out + rest =~= run.out + (announced + rest));
}

/// After the end of the stream everything was told and nothing is open; so it
/// is after the end of the transport, for a response that was announced.
pub proof fn nothing_is_open_at_the_end(run: Run)
    ensures
        ({
            let s = run.done().state;
            &&& s.response_start && s.message_start && s.message_stop && s.response_stop
            &&& s.completed && !s.text_open && s.open_tools.len() == 0
        }),
        run.state.response_start && !run.state.response_stop ==> {
            let s = run.finalized().state;
            &&& s.response_start && s.message_start && s.message_stop && s.response_stop
            &&& s.completed == run.state.completed && !s.text_open && s.open_tools.len() == 0
        },
        !run.state.response_start || run.state.response_stop ==> run.finalized() == run,
{
}

/// Before the first chunk nothing is known, nothing was told and nothing is
/// open.
pub proof fn nothing_was_told_at_first()
    ensures
        ({
            let s = initial_state();
            &&& !s.response_start && !s.message_start && !s.message_stop && !s.response_stop
            &&& !s.text_open && !s.completed
            &&& s.open_tools.len() == 0 && s.id.len() == 0 && s.model.len() == 0
        }),
{
}

} // verus!
