//! What the events of DeepSeek replies say, against the members of the replies,
//! and what the strip of cache markers leaves alone.
use vstd::prelude::*;

use super::request::{body_marks, marked_count, stripped, stripped_message, total_marks, unmarked};
use super::response::{
    call_number, choices_blocks, chunk_fits, initial_state, numbered, response_counts,
    tool_position, tool_stops, MixState, Run,
};
use super::usage::mapped;
use crate::canonical::MessageRole;
use crate::json::{
    array_member, distinct_names, member, member_after_set, removed_member_is_gone, str_member,
    u32_member, u64_member, without_member, Tree,
};
use crate::oai_chat_wire::interleaved_reasoning::DeltaKind;
use crate::stream::{ContentBlockKind, Event, Stop};

verus! {

/// Each count is that of its own member. The input is what was not served from
/// the cache, or the whole prompt where that is not reported; the tokens served
/// from the cache are those read from it; and the report itself is kept.
pub proof fn usage_is_told(raw: Tree)
    ensures
        ({
            let c = mapped(raw);
            &&& u32_member(raw, "prompt_cache_miss_tokens"@) is Some ==> c.input_tokens
                == u32_member(raw, "prompt_cache_miss_tokens"@)
            &&& u32_member(raw, "prompt_cache_miss_tokens"@) is None ==> c.input_tokens
                == u32_member(raw, "prompt_tokens"@)
            &&& c.output_tokens == u32_member(raw, "completion_tokens"@)
            &&& c.cache_read_input_tokens == u32_member(raw, "prompt_cache_hit_tokens"@)
            &&& c.cache_creation_input_tokens is None
            &&& c.reasoning_tokens is None
            &&& !c.estimated
            &&& c.provider_raw == Some(raw)
        }),
        response_counts(raw) == (match raw.get("usage"@) {
            Some(u) => Some(mapped(u)),
            None => None,
        }),
{
}

/// The text of a member.
pub open spec fn text_at(value: Tree, key: Seq<char>) -> Option<Seq<char>> {
    match value.get(key) {
        Some(Tree::Text(s)) => Some(s),
        _ => None,
    }
}

/// A text inside the `function` member of a call.
pub open spec fn function_text(call: Tree, key: Seq<char>) -> Option<Seq<char>> {
    match call.get("function"@) {
        Some(function) => text_at(function, key),
        None => None,
    }
}

/// The number that the upstream gave a call.
pub open spec fn upstream_number(call: Tree) -> u32 {
    match u32_member(call, "index"@) {
        Some(n) => n,
        None => 0,
    }
}

proof fn lemma_found(tools: Seq<(u32, u32)>, call: u32, from: int)
    requires
        0 <= from <= tools.len(),
    ensures
        from <= tool_position(tools, call, from) <= tools.len(),
        tool_position(tools, call, from) < tools.len() ==> tools[tool_position(
            tools,
            call,
            from,
        )].0 == call,
        forall|i: int|
            from <= i < tool_position(tools, call, from) ==> (#[trigger] tools[i]).0 != call,
    decreases tools.len() - from,
{
    if from < tools.len() && tools[from].0 != call {
        lemma_found(tools, call, from + 1);
    }
}

/// The events of one call. A call of an upstream number that has no open block
/// opens one under the next number, behind all blocks so far; one that has goes
/// to that block. There it is announced under its identifier and name, if it has
/// an identifier, and extended by what it has of its arguments.
pub proof fn call_goes_to_its_own_block(run: Run, call: Tree, i: int)
    requires
        numbered(run.state) < u32::MAX,
    ensures
        ({
            let number = upstream_number(call);
            let tools = run.state.tools;
            let known = 0 <= i < tools.len() && tools[i].0 == number && forall|j: int|
                0 <= j < i ==> (#[trigger] tools[j]).0 != number;
            let unknown = forall|j: int| 0 <= j < tools.len() ==> (#[trigger] tools[j]).0 != number;
            let index = if known {
                tools[i].1
            } else {
                (run.state.mix.next + tools.len()) as u32
            };
            let after = run.call(call);
            let opened: Seq<Event> = if unknown {
                seq![Event::ContentBlockStart { index, kind: ContentBlockKind::ToolCall }]
            } else {
                seq![]
            };
            let announced: Seq<Event> = match text_at(call, "id"@) {
                Some(id) => seq![
                    Event::ToolCallStart {
                        index,
                        id,
                        name: match function_text(call, "name"@) {
                            Some(name) => name,
                            None => seq![],
                        },
                    },
                ],
                None => seq![],
            };
            let extended: Seq<Event> = match function_text(call, "arguments"@) {
                Some(text) if text.len() > 0 => seq![
                    Event::ToolCallArgumentsDelta { index, json_fragment: text },
                ],
                _ => seq![],
            };
            known || unknown ==> {
                &&& after.out == run.out + opened + announced + extended
                &&& after.state.tools == (if unknown {
                    tools.push((number, index))
                } else {
                    tools
                })
                &&& after.state.mix == run.state.mix
            }
        }),
{
    reveal_strlit("");
    assert(""@ =~= seq![]);
    let number = upstream_number(call);
    assert(number == call_number(call));
    let tools = run.state.tools;
    lemma_found(tools, number, 0);
    let p = tool_position(tools, number, 0);
    let known = 0 <= i < tools.len() && tools[i].0 == number && forall|j: int|
        0 <= j < i ==> (#[trigger] tools[j]).0 != number;
    let unknown = forall|j: int| 0 <= j < tools.len() ==> (#[trigger] tools[j]).0 != number;
    if known {
        if p < i {
            assert(tools[p].0 != number);
        } else if i < p {
            assert(tools[i].0 != number);
        }
        assert(p == i);
    }
    if unknown {
        if p < tools.len() {
            assert(tools[p].0 != number);
        }
        let fresh_index = (run.state.mix.next + tools.len()) as u32;
        let grown = tools.push((number, fresh_index));
        lemma_found(grown, number, 0);
        let q = tool_position(grown, number, 0);
        if q < tools.len() {
            assert(grown[q] == tools[q]);
        }
        if q > tools.len() {
            assert(grown[tools.len() as int].0 != number);
        }
        assert(run.open_tool(number).block_of(number) == fresh_index);
    }
    if known || unknown {
        let index = if known {
            tools[i].1
        } else {
            (run.state.mix.next + tools.len()) as u32
        };
        let opened: Seq<Event> = if unknown {
            seq![Event::ContentBlockStart { index, kind: ContentBlockKind::ToolCall }]
        } else {
            seq![]
        };
        let announced: Seq<Event> = match text_at(call, "id"@) {
            Some(id) => seq![
                Event::ToolCallStart {
                    index,
                    id,
                    name: match function_text(call, "name"@) {
                        Some(name) => name,
                        None => seq![],
                    },
                },
            ],
            None => seq![],
        };
        let extended: Seq<Event> = match function_text(call, "arguments"@) {
            Some(text) if text.len() > 0 => seq![
                Event::ToolCallArgumentsDelta { index, json_fragment: text },
            ],
            _ => seq![],
        };
        assert(run.call(call).out =~= run.out + opened + announced + extended);
    }
}

/// The announcement of the message, where it is owed.
pub open spec fn announcement(state: MixState) -> Seq<Event> {
    if state.message_start {
        seq![]
    } else {
        seq![Event::MessageStart { role: MessageRole::Assistant }]
    }
}

/// The events that close the open block of text or reasoning.
pub open spec fn closing(state: MixState) -> Seq<Event> {
    match state.mix.open {
        Some((_, index)) => seq![Event::ContentBlockStop { index }],
        None => seq![],
    }
}

/// Text or reasoning goes on in the open block of its kind, or closes the open
/// one and opens one for itself under the next number. What is empty says
/// nothing.
pub proof fn words_go_to_a_block_of_their_kind(run: Run, kind: DeltaKind, text: Option<Seq<char>>)
    requires
        run.state.mix.next < u32::MAX,
    ensures
        match text {
            Some(t) if t.len() > 0 => {
                let after = run.mixed(kind, text);
                let index = run.state.mix.next;
                let piece = |i: u32|
                    match kind {
                        DeltaKind::Text => Event::TextDelta { index: i, text: t },
                        DeltaKind::Reasoning => Event::ReasoningDelta { index: i, text: t },
                    };
                let block = match kind {
                    DeltaKind::Text => ContentBlockKind::Text,
                    DeltaKind::Reasoning => ContentBlockKind::Reasoning,
                };
                match run.state.mix.open {
                    Some((k, i)) if k == kind => {
                        &&& after.out == run.out + announcement(run.state) + seq![piece(i)]
                        &&& after.state.mix == run.state.mix
                    },
                    _ => {
                        &&& after.out == run.out + announcement(run.state) + closing(run.state)
                            + seq![Event::ContentBlockStart { index, kind: block }, piece(index)]
                        &&& after.state.mix.open == Some((kind, index))
                        &&& after.state.mix.next == index + 1
                    },
                }
            },
            _ => run.mixed(kind, text) == run,
        },
{
    if let Some(t) = text {
        if t.len() > 0 {
            let begun = run.start_message();
            assert(begun.out =~= run.out + announcement(run.state));
            assert(begun.state.mix.flush_events() =~= closing(run.state));
            let after = run.mixed(kind, text);
            match run.state.mix.open {
                Some((k, i)) if k == kind => {},
                _ => {
                    let index = run.state.mix.next;
                    let block = match kind {
                        DeltaKind::Text => ContentBlockKind::Text,
                        DeltaKind::Reasoning => ContentBlockKind::Reasoning,
                    };
                    let piece = match kind {
                        DeltaKind::Text => Event::TextDelta { index, text: t },
                        DeltaKind::Reasoning => Event::ReasoningDelta { index, text: t },
                    };
                    assert(after.out =~= run.out + announcement(run.state) + closing(run.state)
                        + seq![Event::ContentBlockStart { index, kind: block }, piece]);
                },
            }
        }
    }
}

/// A delta: its role announces the message, then come its reasoning and its
/// text, and then, once their block is closed, its calls, one after another.
pub proof fn delta_is_told_in_order(run: Run, delta: Tree, calls: Seq<Tree>, call: Tree)
    ensures
        ({
            let begun = if str_member(delta, "role"@) is Some {
                run.start_message()
            } else {
                run
            };
            let said = begun.mixed(
                DeltaKind::Reasoning,
                text_at(delta, "reasoning_content"@),
            ).mixed(DeltaKind::Text, text_at(delta, "content"@));
            match array_member(delta, "tool_calls"@) {
                None => run.delta(delta) == said,
                Some(all) => {
                    let ready = said.start_message().flush();
                    &&& run.delta(delta) == ready.each_call(all)
                    &&& ready.out == said.out + announcement(said.state) + closing(said.state)
                    &&& ready.state.mix.open is None
                    &&& ready.state.message_start
                },
            }
        }),
        run.start_message().out == run.out + announcement(run.state),
        run.each_call(Seq::empty()) == run,
        run.each_call(calls.push(call)) == run.each_call(calls).call(call),
{
    assert(run.start_message().out =~= run.out + announcement(run.state));
    assert(calls.push(call).drop_last() =~= calls);
    let begun = if str_member(delta, "role"@) is Some {
        run.start_message()
    } else {
        run
    };
    let said = begun.mixed(DeltaKind::Reasoning, text_at(delta, "reasoning_content"@)).mixed(
        DeltaKind::Text,
        text_at(delta, "content"@),
    );
    assert(said.start_message().state.mix.flush_events() =~= closing(said.state));
    assert(said.start_message().flush().out =~= said.out + announcement(said.state) + closing(
        said.state,
    ));
}

/// The meaning of a finish reason.
pub open spec fn finish_meaning(reason: Seq<char>) -> Stop {
    if reason == "stop"@ {
        Stop::EndTurn
    } else if reason == "length"@ {
        Stop::MaxTokens
    } else if reason == "tool_calls"@ || reason == "function_call"@ {
        Stop::ToolUse
    } else if reason == "content_filter"@ {
        Stop::ContentFilter
    } else {
        Stop::Other(reason)
    }
}

/// A finish reason closes the block of text or reasoning and then every call
/// with its block, and stops the message for that reason. The sentinel closes
/// the same and stops the response.
pub proof fn ends_close_every_block(run: Run, choice: Tree)
    ensures
        match text_at(choice, "finish_reason"@) {
            Some(reason) if reason.len() > 0 => {
                let after = run.finish(choice);
                &&& after.out == run.out + closing(run.state) + tool_stops(run.state.tools) + seq![
                    Event::MessageStop {
                        stop_reason: finish_meaning(reason),
                        stop_sequence: None,
                    },
                ]
                &&& after.state.completed
                &&& after.state.tools.len() == 0
                &&& after.state.mix.open is None
            },
            _ => run.finish(choice) == run,
        },
        run.done().out == run.out + closing(run.state) + tool_stops(run.state.tools) + seq![
            Event::ResponseStop { usage: None },
        ],
        run.done().state.completed,
{
    assert(run.state.mix.flush_events() =~= closing(run.state));
    assert(run.done().out =~= run.out + closing(run.state) + tool_stops(run.state.tools) + seq![
        Event::ResponseStop { usage: None },
    ]);
    if let Some(reason) = text_at(choice, "finish_reason"@) {
        if reason.len() > 0 {
            assert(run.finish(choice).out =~= run.out + closing(run.state) + tool_stops(
                run.state.tools,
            ) + seq![
                Event::MessageStop { stop_reason: finish_meaning(reason), stop_sequence: None },
            ]);
        }
    }
}

/// Each open call stops, and then its block, in order.
pub proof fn calls_stop_in_order(tools: Seq<(u32, u32)>, tool: (u32, u32))
    ensures
        tool_stops(Seq::empty()).len() == 0,
        tool_stops(tools.push(tool)) == tool_stops(tools) + seq![
            Event::ToolCallStop { index: tool.1 },
            Event::ContentBlockStop { index: tool.1 },
        ],
{
    assert(tools.push(tool).drop_last() =~= tools);
    assert(tool_stops(tools.push(tool)) =~= tool_stops(tools) + seq![
        Event::ToolCallStop { index: tool.1 },
        Event::ContentBlockStop { index: tool.1 },
    ]);
}

/// A chunk. An error is told as its message and nothing else; any other chunk
/// announces the response, if it is the first, under its identifier, model and
/// time, then tells its choices, each by its delta and its end, and then its
/// usage unless that is `null`.
pub proof fn chunk_is_told_in_order(run: Run, chunk: Tree, choices: Seq<Tree>, choice: Tree)
    ensures
        match chunk.get("error"@) {
            Some(error) => {
                &&& run.chunk(chunk).state == run.state
                &&& run.chunk(chunk).out == run.out.push(
                    Event::Error {
                        message: match text_at(error, "message"@) {
                            Some(s) => s,
                            None => "upstream error"@,
                        },
                    },
                )
            },
            None => {
                let id = match text_at(chunk, "id"@) {
                    Some(s) => s,
                    None => "unknown"@,
                };
                let model = match text_at(chunk, "model"@) {
                    Some(s) => s,
                    None => "unknown"@,
                };
                let created_at_unix = match u64_member(chunk, "created"@) {
                    Some(n) => n,
                    None => 0,
                };
                let begun = if run.state.response_start {
                    run
                } else {
                    Run {
                        state: MixState { response_start: true, id, model, ..run.state },
                        out: run.out.push(Event::ResponseStart { id, model, created_at_unix }),
                    }
                };
                let told = match array_member(chunk, "choices"@) {
                    Some(all) => begun.each_choice(all),
                    None => begun,
                };
                match chunk.get("usage"@) {
                    Some(raw) if raw != Tree::Null => {
                        &&& run.chunk(chunk).state == told.state
                        &&& run.chunk(chunk).out == told.out.push(
                            Event::UsageDelta { usage: mapped(raw) },
                        )
                    },
                    _ => run.chunk(chunk) == told,
                }
            },
        },
        run.each_choice(Seq::empty()) == run,
        run.each_choice(choices.push(choice)) == (match choice.get("delta"@) {
            Some(delta) => run.each_choice(choices).delta(delta),
            None => run.each_choice(choices),
        }).finish(choice),
        chunk.get("error"@) is Some ==> chunk_fits(run.state, chunk),
{
    assert(choices.push(choice).drop_last() =~= choices);
}

/// Before the first chunk nothing is known, nothing was told and nothing is
/// open.
pub proof fn nothing_was_told_at_first()
    ensures
        ({
            let s = initial_state();
            &&& !s.response_start && !s.message_start && !s.completed
            &&& s.tools.len() == 0 && s.mix.next == 0 && s.mix.open is None
            &&& s.id.len() == 0 && s.model.len() == 0
        }),
{
}

/// The text of a member that says something counts as one block.
pub open spec fn one_if_said(delta: Tree, key: Seq<char>) -> nat {
    match delta.get(key) {
        Some(Tree::Text(text)) if text.len() > 0 => 1,
        _ => 0,
    }
}

/// A chunk fits where the numbers in use leave room for a block for reasoning, a
/// block for text and a block for each call, of every choice.
pub proof fn every_block_of_a_chunk_needs_room(
    state: MixState,
    chunk: Tree,
    choices: Seq<Tree>,
    choice: Tree,
)
    ensures
        chunk_fits(state, chunk) <==> chunk.get("error"@) is Some || state.mix.next
            + state.tools.len() + (match chunk.get("choices"@) {
            Some(Tree::Array(all)) => choices_blocks(all),
            _ => 0,
        }) <= u32::MAX,
        choices_blocks(Seq::empty()) == 0,
        choices_blocks(choices.push(choice)) == choices_blocks(choices) + (match choice.get(
            "delta"@,
        ) {
            Some(delta) => one_if_said(delta, "reasoning_content"@) + one_if_said(
                delta,
                "content"@,
            ) + (match delta.get("tool_calls"@) {
                Some(Tree::Array(calls)) => calls.len(),
                _ => 0,
            }),
            None => 0,
        }),
{
    assert(choices.push(choice).drop_last() =~= choices);
}

// ---------------------------------------------------------------------------
// Cache markers
// ---------------------------------------------------------------------------

/// Taking out the markers changes nothing else of a body: every member but the
/// messages reads as before, and there are as many messages.
pub proof fn strip_keeps_the_rest_of_a_body(body: Tree, key: Seq<char>)
    ensures
        key != "messages"@ ==> stripped(body).get(key) == body.get(key),
        match (body.get("messages"@), stripped(body).get("messages"@)) {
            (Some(Tree::Array(a)), Some(Tree::Array(b))) => {
                &&& a.len() == b.len()
                &&& forall|i: int|
                    0 <= i < b.len() ==> #[trigger] b[i] == stripped_message(a[i])
            },
            (a, b) => a == b,
        },
{
    broadcast use member_after_set;

}

/// Taking out the markers changes nothing else of a message or of a block:
/// every member but the marker, and the content of a message, reads as before.
/// Content that is no list stays as it is, and a list keeps its length.
pub proof fn strip_keeps_the_rest_of_a_message(m: Seq<(Seq<char>, Tree)>, key: Seq<char>)
    requires
        distinct_names(m),
    ensures
        ({
            let message = Tree::Object(m);
            let after = stripped_message(message);
            &&& key != "cache_control"@ && key != "content"@ ==> after.get(key) == message.get(key)
            &&& after.get("cache_control"@) is None
            &&& match (message.get("content"@), after.get("content"@)) {
                (Some(Tree::Array(a)), Some(Tree::Array(b))) => {
                    &&& a.len() == b.len()
                    &&& forall|i: int| 0 <= i < b.len() ==> #[trigger] b[i] == unmarked(a[i])
                },
                (a, b) => a == b,
            }
            &&& unmarked(message).get("cache_control"@) is None
            &&& key != "cache_control"@ ==> unmarked(message).get(key) == message.get(key)
        }),
{
    broadcast use member_after_set;

    reveal_strlit("cache_control");
    reveal_strlit("content");
    assert("cache_control"@.len() == 13 && "content"@.len() == 7);
    removed_member_is_gone(m, "cache_control"@, key);
    removed_member_is_gone(m, "cache_control"@, "content"@);
    let rest = without_member(m, "cache_control"@);
    assert(member(rest, "content"@) == member(m, "content"@));
}

/// What is no object has no markers and stays as it is.
pub proof fn strip_keeps_other_values(value: Tree)
    requires
        !(value is Object),
    ensures
        unmarked(value) == value,
        stripped_message(value) == value,
        stripped(value) == value,
{
}

/// The markers counted are those taken out: the message's own, and one for each
/// block of its content that has one, of every message.
pub proof fn each_marker_is_counted(
    body: Tree,
    messages: Seq<Tree>,
    m: Seq<(Seq<char>, Tree)>,
    blocks: Seq<Tree>,
    block: Tree,
)
    requires
        distinct_names(m),
    ensures
        body_marks(body) == (match body.get("messages"@) {
            Some(Tree::Array(all)) => total_marks(all),
            _ => 0,
        }),
        total_marks(Seq::empty()) == 0,
        total_marks(messages.push(Tree::Object(m))) == total_marks(messages) + (if Tree::Object(
            m,
        ).get("cache_control"@) is Some {
            1nat
        } else {
            0nat
        }) + (match Tree::Object(m).get("content"@) {
            Some(Tree::Array(all)) => marked_count(all),
            _ => 0,
        }),
        marked_count(Seq::empty()) == 0,
        marked_count(blocks.push(block)) == marked_count(blocks) + (if block.get(
            "cache_control"@,
        ) is Some {
            1nat
        } else {
            0nat
        }),
        block !is Object ==> total_marks(messages.push(block)) == total_marks(messages),
{
    assert(messages.push(Tree::Object(m)).drop_last() =~= messages);
    assert(messages.push(block).drop_last() =~= messages);
    assert(blocks.push(block).drop_last() =~= blocks);
    reveal_strlit("cache_control");
    reveal_strlit("content");
    assert("cache_control"@.len() == 13 && "content"@.len() == 7);
    removed_member_is_gone(m, "cache_control"@, "content"@);
}

} // verus!
