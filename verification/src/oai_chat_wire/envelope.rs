//! The envelope that the chat stream parser keeps: what every stream of
//! events it emits obeys, whatever the upstream sends.
use vstd::prelude::*;

use super::chat_sse_parser::{
    block_index, calls_fit, choice_fits, choices_fit, chunk_fits, fresh, initial_state, tool_stops,
    well_formed, ChatState, Run,
};
use crate::json::{array_member, Tree};
use crate::lifecycle::{
    lemma_observe_concat, lemma_observe_push, nothing_seen, observe_all, Track,
};
use crate::stream::{Event, Stop};

verus! {

/// The blocks that a parser state holds open.
pub open spec fn open_blocks(state: ChatState) -> Set<u32> {
    if state.text_open {
        state.open_tools.to_set().insert(0)
    } else {
        state.open_tools.to_set()
    }
}

/// What an observer knows in a parser state.
pub open spec fn track_of(state: ChatState) -> Track {
    Track {
        responded: state.response_start,
        message_started: state.message_start,
        message_stopped: state.message_stop,
        response_stopped: state.response_stop,
        open: open_blocks(state),
    }
}

/// The invariant of the parser: tool blocks are numbered from one and open at
/// most once, nothing is open outside a message, and no message is outside a
/// response.
pub open spec fn valid(state: ChatState) -> bool {
    &&& well_formed(state)
    &&& (state.text_open || state.open_tools.len() > 0) ==> state.message_start
    &&& state.message_start ==> state.response_start
    &&& state.response_stop ==> state.message_stop
}

/// A run whose events, seen from `from`, obey the envelope rule.
pub open spec fn sound(from: Track, run: Run) -> bool {
    valid(run.state) && observe_all(Some(from), run.out) == Some(track_of(run.state))
}

proof fn lemma_respond(from: Track, run: Run, id: Seq<char>, model: Seq<char>, created: u64)
    requires
        sound(from, run),
    ensures
        sound(from, run.respond(id, model, created)),
        run.respond(id, model, created).state.response_start,
{
    lemma_observe_push(
        Some(from),
        run.out,
        Event::ResponseStart { id, model, created_at_unix: created },
    );
}

proof fn lemma_start_message(from: Track, run: Run)
    requires
        sound(from, run),
        run.state.response_start,
    ensures
        sound(from, run.start_message()),
        run.start_message().state.message_start,
        run.start_message().state.response_start,
        run.start_message().state.response_stop == run.state.response_stop,
{
    lemma_observe_push(
        Some(from),
        run.out,
        Event::MessageStart { role: crate::canonical::MessageRole::Assistant },
    );
}

proof fn lemma_open_text(from: Track, run: Run)
    requires
        sound(from, run),
        run.state.message_start,
    ensures
        sound(from, run.open_text()),
        run.open_text().state.message_start,
        run.open_text().state.response_start,
        run.open_text().state.text_open,
{
    lemma_observe_push(
        Some(from),
        run.out,
        Event::ContentBlockStart { index: 0, kind: crate::stream::ContentBlockKind::Text },
    );
}

proof fn lemma_close_text(from: Track, run: Run)
    requires
        sound(from, run),
    ensures
        sound(from, run.close_text()),
        !run.close_text().state.text_open,
        run.close_text().state.message_start == run.state.message_start,
        run.close_text().state.response_start == run.state.response_start,
        run.close_text().state.response_stop == run.state.response_stop,
{
    lemma_observe_push(Some(from), run.out, Event::ContentBlockStop { index: 0 });
    let after = run.close_text().state;
    assert(run.state.text_open ==> open_blocks(run.state).remove(0) =~= open_blocks(after));
}

proof fn lemma_tool_stops(track: Track, tools: Seq<u32>)
    requires
        tools.no_duplicates(),
        forall|i: int| 0 <= i < tools.len() ==> track.open.contains(#[trigger] tools[i]),
    ensures
        observe_all(Some(track), tool_stops(tools)) == Some(
            Track { open: track.open.difference(tools.to_set()), ..track },
        ),
    decreases tools.len(),
{
    if tools.len() == 0 {
        assert(track.open.difference(tools.to_set()) =~= track.open);
    } else {
        let before = tools.drop_last();
        let last = tools.last();
        assert forall|i: int| 0 <= i < before.len() implies track.open.contains(
            #[trigger] before[i],
        ) by {
            assert(before[i] == tools[i]);
        }
        lemma_tool_stops(track, before);
        let middle = tool_stops(before).push(Event::ToolCallStop { index: last });
        lemma_observe_push(Some(track), tool_stops(before), Event::ToolCallStop { index: last });
        lemma_observe_push(Some(track), middle, Event::ContentBlockStop { index: last });
        assert(!before.to_set().contains(last)) by {
            if before.contains(last) {
                let i = choose|i: int| 0 <= i < before.len() && before[i] == last;
                assert(tools[i] == tools[tools.len() - 1]);
            }
        }
        assert(track.open.contains(tools[tools.len() - 1]));
        assert(track.open.difference(before.to_set()).remove(last) =~= track.open.difference(
            tools.to_set(),
        )) by {
            assert forall|x: u32| tools.to_set().contains(x) == (before.to_set().contains(x) || x
                == last) by {
                if tools.contains(x) {
                    let i = choose|i: int| 0 <= i < tools.len() && tools[i] == x;
                    if i < before.len() {
                        assert(before[i] == x);
                    }
                }
                if before.contains(x) {
                    let i = choose|i: int| 0 <= i < before.len() && before[i] == x;
                    assert(tools[i] == x);
                }
                if x == last {
                    assert(tools[tools.len() - 1] == x);
                }
            }
        }
    }
}

proof fn lemma_close_tools(from: Track, run: Run)
    requires
        sound(from, run),
        !run.state.text_open,
    ensures
        sound(from, run.close_tools()),
        open_blocks(run.close_tools().state) == Set::<u32>::empty(),
{
    let tools = run.state.open_tools;
    let track = track_of(run.state);
    assert forall|i: int| 0 <= i < tools.len() implies track.open.contains(#[trigger] tools[i]) by {
        assert(tools.contains(tools[i]));
    }
    lemma_tool_stops(track, tools);
    lemma_observe_concat(Some(from), run.out, tool_stops(tools));
    assert(track.open.difference(tools.to_set()) =~= Set::<u32>::empty());
    assert(open_blocks(run.close_tools().state) =~= Set::<u32>::empty());
}

proof fn lemma_stop_message(from: Track, run: Run, reason: Stop)
    requires
        sound(from, run),
        open_blocks(run.state) == Set::<u32>::empty(),
    ensures
        sound(from, run.stop_message(reason)),
        run.stop_message(reason).state.message_stop,
        open_blocks(run.stop_message(reason).state) == Set::<u32>::empty(),
{
    lemma_observe_push(
        Some(from),
        run.out,
        Event::MessageStop { stop_reason: reason, stop_sequence: None },
    );
    assert(open_blocks(run.stop_message(reason).state) =~= open_blocks(run.state));
}

proof fn lemma_stop_response(from: Track, run: Run)
    requires
        sound(from, run),
        run.state.message_stop,
        open_blocks(run.state) == Set::<u32>::empty(),
    ensures
        sound(from, run.stop_response()),
        run.stop_response().state.response_stop,
        open_blocks(run.stop_response().state) == Set::<u32>::empty(),
{
    lemma_observe_push(Some(from), run.out, Event::ResponseStop { usage: None });
    assert(open_blocks(run.stop_response().state) =~= open_blocks(run.state));
}

proof fn lemma_call(from: Track, run: Run, call: Tree)
    requires
        sound(from, run),
        run.state.message_start,
        super::chat_sse_parser::call_index(call) < u32::MAX,
    ensures
        sound(from, run.call(call)),
        run.call(call).state.message_start,
        run.call(call).state.response_start,
{
    let index = block_index(call);
    let opened = run.open_tool(index);
    lemma_observe_push(
        Some(from),
        run.out,
        Event::ContentBlockStart { index, kind: crate::stream::ContentBlockKind::ToolCall },
    );
    if !run.state.open_tools.contains(index) {
        let tools = run.state.open_tools;
        assert(tools.push(index).to_set() =~= tools.to_set().insert(index)) by {
            assert forall|x: u32| tools.push(index).contains(x) == (tools.contains(x) || x == index)
                by {
                if tools.push(index).contains(x) {
                    let i = choose|i: int|
                        0 <= i < tools.push(index).len() && tools.push(index)[i] == x;
                    if i < tools.len() {
                        assert(tools[i] == x);
                    }
                }
                if tools.contains(x) {
                    let i = choose|i: int| 0 <= i < tools.len() && tools[i] == x;
                    assert(tools.push(index)[i] == x);
                }
                assert(tools.push(index)[tools.len() as int] == index);
            }
        }
        assert(open_blocks(opened.state) =~= open_blocks(run.state).insert(index));
        assert(!open_blocks(run.state).contains(index));
        assert(!opened.state.open_tools.contains(0)) by {
            if tools.push(index).contains(0) {
                let i = choose|i: int|
                    0 <= i < tools.push(index).len() && tools.push(index)[i] == 0;
                if i < tools.len() {
                    assert(tools[i] == 0);
                }
            }
        }
        assert(opened.state.open_tools.no_duplicates());
    }
    assert(sound(from, opened));
    assert(open_blocks(opened.state).contains(index)) by {
        if !run.state.open_tools.contains(index) {
            assert(opened.state.open_tools[opened.state.open_tools.len() - 1] == index);
        }
        assert(opened.state.open_tools.contains(index));
    }
    let name = super::chat_sse_parser::call_name(call);
    if let Some(id) = crate::json::str_member(call, "id"@) {
        lemma_observe_push(Some(from), opened.out, Event::ToolCallStart { index, id, name });
    }
    let started = run.call_start(call);
    if let Some(text) = super::chat_sse_parser::call_function_member(call, "arguments"@) {
        lemma_observe_push(
            Some(from),
            started.out,
            Event::ToolCallArgumentsDelta { index, json_fragment: text },
        );
    }
}

proof fn lemma_each_call(from: Track, run: Run, calls: Seq<Tree>)
    requires
        sound(from, run),
        run.state.message_start,
        calls_fit(calls),
    ensures
        sound(from, run.each_call(calls)),
        run.each_call(calls).state.message_start,
        run.each_call(calls).state.response_start,
    decreases calls.len(),
{
    if calls.len() > 0 {
        assert(calls_fit(calls.drop_last()));
        lemma_each_call(from, run, calls.drop_last());
        lemma_call(from, run.each_call(calls.drop_last()), calls.last());
    }
}

proof fn lemma_delta(from: Track, run: Run, choice: Tree)
    requires
        sound(from, run),
        run.state.response_start,
        choice_fits(choice),
    ensures
        sound(from, run.delta(choice)),
        run.delta(choice).state.response_start,
{
    if let Some(delta) = choice.get("delta"@) {
        lemma_start_message(from, run);
        let a = run.role(delta);
        assert(sound(from, a) && a.state.response_start);
        lemma_start_message(from, a);
        lemma_open_text(from, a.start_message());
        let shown = a.start_message().open_text();
        if let Some(text) = crate::json::str_member(delta, "content"@) {
            lemma_observe_push(Some(from), shown.out, Event::TextDelta { index: 0, text });
        }
        let b = a.content(delta);
        assert(sound(from, b) && b.state.response_start);
        lemma_start_message(from, b);
        lemma_close_text(from, b.start_message());
        if let Some(calls) = array_member(delta, "tool_calls"@) {
            lemma_each_call(from, b.start_message().close_text(), calls);
        }
    }
}

proof fn lemma_finish(from: Track, run: Run, choice: Tree)
    requires
        sound(from, run),
        run.state.response_start,
    ensures
        sound(from, run.finish(choice)),
        run.finish(choice).state.response_start,
{
    if let Some(reason) = crate::json::str_member(choice, "finish_reason"@) {
        lemma_close_text(from, run);
        let a = run.close_text();
        lemma_close_tools(from, a);
        let b = a.close_tools();
        let reason = crate::stream::openai_stop(reason);
        lemma_stop_message(from, b, reason);
        let c = b.stop_message(reason);
        assert(open_blocks(c.complete().state) =~= open_blocks(c.state));
        assert(track_of(c.complete().state) =~= track_of(c.state));
    }
}

proof fn lemma_each_choice(from: Track, run: Run, choices: Seq<Tree>)
    requires
        sound(from, run),
        run.state.response_start,
        choices_fit(choices),
    ensures
        sound(from, run.each_choice(choices)),
        run.each_choice(choices).state.response_start,
    decreases choices.len(),
{
    if choices.len() > 0 {
        assert(choices_fit(choices.drop_last()));
        lemma_each_choice(from, run, choices.drop_last());
        let a = run.each_choice(choices.drop_last());
        assert(choice_fits(choices[choices.len() - 1]));
        lemma_delta(from, a, choices.last());
        lemma_finish(from, a.delta(choices.last()), choices.last());
    }
}

proof fn lemma_usage(from: Track, run: Run, chunk: Tree)
    requires
        sound(from, run),
    ensures
        sound(from, run.usage(chunk)),
{
    if let Some(usage) = super::chat_sse_parser::usage_of(chunk) {
        lemma_observe_push(Some(from), run.out, Event::UsageDelta { usage });
    }
}

/// The events of a chunk obey the envelope rule and lead to the parser's next
/// state.
pub proof fn chunk_keeps_the_envelope(from: Track, run: Run, chunk: Tree)
    requires
        sound(from, run),
        chunk_fits(chunk),
    ensures
        sound(from, run.chunk(chunk)),
{
    if let Some(error) = chunk.get("error"@) {
        lemma_observe_push(
            Some(from),
            run.out,
            Event::Error {
                message: crate::json::str_member_or(error, "message"@, "upstream error"@),
            },
        );
    } else {
        let id = crate::json::str_member_or(chunk, "id"@, "unknown"@);
        let model = crate::json::str_member_or(chunk, "model"@, "unknown"@);
        let created = match crate::json::u64_member(chunk, "created"@) {
            Some(n) => n,
            None => 0,
        };
        lemma_respond(from, run, id, model, created);
        let begun = run.respond(id, model, created);
        if let Some(choices) = array_member(chunk, "choices"@) {
            lemma_each_choice(from, begun, choices);
            lemma_usage(from, begun.each_choice(choices), chunk);
        } else {
            lemma_usage(from, begun, chunk);
        }
    }
}

/// The events of the end-of-stream sentinel obey the envelope rule, and after
/// them the response has ended with every block closed.
pub proof fn done_completes_the_envelope(from: Track, run: Run)
    requires
        sound(from, run),
    ensures
        sound(from, run.done()),
        run.done().state.response_stop,
        run.done().state.message_stop,
        run.done().state.completed,
        open_blocks(run.done().state) == Set::<u32>::empty(),
{
    lemma_respond(from, run, run.state.id, run.state.model, 0);
    let a = run.respond(run.state.id, run.state.model, 0);
    lemma_start_message(from, a);
    let b = a.start_message();
    lemma_close_text(from, b);
    let c = b.close_text();
    lemma_close_tools(from, c);
    let d = c.close_tools();
    lemma_stop_message(from, d, Stop::EndTurn);
    let e = d.stop_message(Stop::EndTurn);
    lemma_stop_response(from, e);
    let f = e.stop_response();
    assert(open_blocks(f.complete().state) =~= open_blocks(f.state));
    assert(track_of(f.complete().state) =~= track_of(f.state));
}

/// The events of the end of the transport obey the envelope rule. After them
/// a response that was begun has ended, with every block closed where this
/// call ended it.
pub proof fn finalize_completes_the_envelope(from: Track, run: Run)
    requires
        sound(from, run),
    ensures
        sound(from, run.finalized()),
        run.finalized().state.response_start ==> run.finalized().state.response_stop,
        run.state.response_start && !run.state.response_stop ==> open_blocks(
            run.finalized().state,
        ) == Set::<u32>::empty(),
{
    if !(run.state.response_stop || !run.state.response_start) {
        lemma_start_message(from, run);
        let b = run.start_message();
        lemma_close_text(from, b);
        let c = b.close_text();
        lemma_close_tools(from, c);
        let d = c.close_tools();
        lemma_stop_message(from, d, Stop::EndTurn);
        let e = d.stop_message(Stop::EndTurn);
        lemma_stop_response(from, e);
    }
}

/// Ending the transport a second time emits nothing and changes nothing, and
/// neither does ending it after the sentinel.
pub proof fn finalize_is_idempotent(state: ChatState)
    ensures
        fresh(fresh(state).finalized().state).finalized() == fresh(
            fresh(state).finalized().state,
        ),
        fresh(fresh(state).done().state).finalized() == fresh(fresh(state).done().state),
{
}

/// One thing that reaches the parser.
pub enum Input {
    Chunk(Tree),
    Done,
    End,
}

pub open spec fn input_fits(input: Input) -> bool {
    match input {
        Input::Chunk(chunk) => chunk_fits(chunk),
        _ => true,
    }
}

/// The run of one input.
pub open spec fn step(run: Run, input: Input) -> Run {
    match input {
        Input::Chunk(chunk) => run.chunk(chunk),
        Input::Done => run.done(),
        Input::End => run.finalized(),
    }
}

/// The run of a whole stream of inputs.
pub open spec fn session(inputs: Seq<Input>) -> Run
    decreases inputs.len(),
{
    if inputs.len() == 0 {
        fresh(initial_state())
    } else {
        step(session(inputs.drop_last()), inputs.last())
    }
}

/// Whatever the upstream sends, all the events that a parser emits from its
/// first input on obey the envelope rule.
pub proof fn every_session_keeps_the_envelope(inputs: Seq<Input>)
    requires
        forall|i: int| 0 <= i < inputs.len() ==> input_fits(#[trigger] inputs[i]),
    ensures
        sound(nothing_seen(), session(inputs)),
    decreases inputs.len(),
{
    if inputs.len() == 0 {
        assert(track_of(initial_state()) =~= nothing_seen());
        assert(sound(nothing_seen(), fresh(initial_state())));
    } else {
        let before = inputs.drop_last();
        assert forall|i: int| 0 <= i < before.len() implies input_fits(#[trigger] before[i]) by {
            assert(before[i] == inputs[i]);
        }
        every_session_keeps_the_envelope(before);
        assert(input_fits(inputs[inputs.len() - 1]));
        let run = session(before);
        match inputs.last() {
            Input::Chunk(chunk) => chunk_keeps_the_envelope(nothing_seen(), run, chunk),
            Input::Done => done_completes_the_envelope(nothing_seen(), run),
            Input::End => finalize_completes_the_envelope(nothing_seen(), run),
        }
    }
}

/// Whether every block but the text block closes right after its tool call has
/// stopped.
pub open spec fn calls_stop_first(out: Seq<Event>) -> bool {
    forall|i: int|
        0 <= i < out.len() ==> match #[trigger] out[i] {
            Event::ContentBlockStop { index } => index > 0 ==> i > 0 && out[i - 1] == (
            Event::ToolCallStop { index }),
            _ => true,
        }
}

broadcast proof fn lemma_quiet_push(out: Seq<Event>, event: Event)
    requires
        calls_stop_first(out),
        !(event is ContentBlockStop) || event == (Event::ContentBlockStop { index: 0 }),
    ensures
        #[trigger] calls_stop_first(out.push(event)),
{
    let after = out.push(event);
    assert forall|i: int| 0 <= i < after.len() implies match #[trigger] after[i] {
        Event::ContentBlockStop { index } => index > 0 ==> i > 0 && after[i - 1] == (
        Event::ToolCallStop { index }),
        _ => true,
    } by {
        if i < out.len() {
            assert(after[i] == out[i]);
        }
    }
}

proof fn lemma_stops_first(out: Seq<Event>, tools: Seq<u32>)
    requires
        calls_stop_first(out),
    ensures
        calls_stop_first(out + tool_stops(tools)),
    decreases tools.len(),
{
    if tools.len() == 0 {
        assert(out + tool_stops(tools) =~= out);
    } else {
        let index = tools.last();
        let before = out + tool_stops(tools.drop_last());
        lemma_stops_first(out, tools.drop_last());
        lemma_quiet_push(before, Event::ToolCallStop { index });
        let middle = before.push(Event::ToolCallStop { index });
        let after = out + tool_stops(tools);
        assert(after =~= middle.push(Event::ContentBlockStop { index }));
        assert forall|i: int| 0 <= i < after.len() implies match #[trigger] after[i] {
            Event::ContentBlockStop { index } => index > 0 ==> i > 0 && after[i - 1] == (
            Event::ToolCallStop { index }),
            _ => true,
        } by {
            if i < middle.len() {
                assert(after[i] == middle[i]);
            }
        }
    }
}

proof fn lemma_calls_first(run: Run, calls: Seq<Tree>)
    requires
        calls_stop_first(run.out),
    ensures
        calls_stop_first(run.each_call(calls).out),
    decreases calls.len(),
{
    broadcast use lemma_quiet_push;

    if calls.len() > 0 {
        lemma_calls_first(run, calls.drop_last());
    }
}

proof fn lemma_choices_first(run: Run, choices: Seq<Tree>)
    requires
        calls_stop_first(run.out),
    ensures
        calls_stop_first(run.each_choice(choices).out),
    decreases choices.len(),
{
    broadcast use lemma_quiet_push;

    if choices.len() > 0 {
        let choice = choices.last();
        lemma_choices_first(run, choices.drop_last());
        let a = run.each_choice(choices.drop_last());
        if let Some(delta) = choice.get("delta"@) {
            let b = a.role(delta).content(delta);
            assert(calls_stop_first(b.out));
            if let Some(calls) = array_member(delta, "tool_calls"@) {
                lemma_calls_first(b.start_message().close_text(), calls);
            }
        }
        let c = a.delta(choice);
        assert(calls_stop_first(c.out));
        lemma_stops_first(c.close_text().out, c.close_text().state.open_tools);
    }
}

/// In all the events of a parser, a tool block closes right after its call has
/// stopped, whatever the upstream sends.
pub proof fn calls_stop_before_their_blocks_close(inputs: Seq<Input>)
    ensures
        calls_stop_first(session(inputs).out),
    decreases inputs.len(),
{
    broadcast use lemma_quiet_push;

    if inputs.len() > 0 {
        calls_stop_before_their_blocks_close(inputs.drop_last());
        let run = session(inputs.drop_last());
        match inputs.last() {
            Input::Chunk(chunk) => {
                let begun = run.respond(
                    crate::json::str_member_or(chunk, "id"@, "unknown"@),
                    crate::json::str_member_or(chunk, "model"@, "unknown"@),
                    match crate::json::u64_member(chunk, "created"@) {
                        Some(n) => n,
                        None => 0,
                    },
                );
                assert(calls_stop_first(begun.out));
                if let Some(choices) = array_member(chunk, "choices"@) {
                    lemma_choices_first(begun, choices);
                }
            },
            Input::Done => {
                let a = run.respond(run.state.id, run.state.model, 0).start_message().close_text();
                lemma_stops_first(a.out, a.state.open_tools);
            },
            Input::End => {
                let a = run.start_message().close_text();
                lemma_stops_first(a.out, a.state.open_tools);
            },
        }
    }
}

/// `run` with `prior` emitted before it.
pub open spec fn after(prior: Seq<Event>, run: Run) -> Run {
    Run { out: prior + run.out, ..run }
}

proof fn lemma_after_emit(prior: Seq<Event>, run: Run, event: Event)
    ensures
        after(prior, run).emit(event) == after(prior, run.emit(event)),
{
    assert(after(prior, run).emit(event) =~= after(prior, run.emit(event)));
}

proof fn lemma_after_basics(prior: Seq<Event>, run: Run)
    ensures
        after(prior, run).start_message() == after(prior, run.start_message()),
        after(prior, run).open_text() == after(prior, run.open_text()),
        after(prior, run).close_text() == after(prior, run.close_text()),
        after(prior, run).close_tools() == after(prior, run.close_tools()),
        after(prior, run).stop_response() == after(prior, run.stop_response()),
        after(prior, run).complete() == after(prior, run.complete()),
{
    assert(after(prior, run).start_message() =~= after(prior, run.start_message()));
    assert(after(prior, run).open_text() =~= after(prior, run.open_text()));
    assert(after(prior, run).close_text() =~= after(prior, run.close_text()));
    assert(after(prior, run).close_tools() =~= after(prior, run.close_tools()));
    assert(after(prior, run).stop_response() =~= after(prior, run.stop_response()));
}

proof fn lemma_after_stop_message(prior: Seq<Event>, run: Run, reason: Stop)
    ensures
        after(prior, run).stop_message(reason) == after(prior, run.stop_message(reason)),
{
    assert(after(prior, run).stop_message(reason) =~= after(prior, run.stop_message(reason)));
}

proof fn lemma_after_call(prior: Seq<Event>, run: Run, call: Tree)
    ensures
        after(prior, run).call(call) == after(prior, run.call(call)),
{
    let index = block_index(call);
    assert(after(prior, run).open_tool(index) =~= after(prior, run.open_tool(index)));
    assert(after(prior, run).call_start(call) =~= after(prior, run.call_start(call)));
    let started = run.call_start(call);
    assert(after(prior, started).call_arguments(call) =~= after(
        prior,
        started.call_arguments(call),
    ));
}

proof fn lemma_after_each_call(prior: Seq<Event>, run: Run, calls: Seq<Tree>)
    ensures
        after(prior, run).each_call(calls) == after(prior, run.each_call(calls)),
    decreases calls.len(),
{
    if calls.len() > 0 {
        lemma_after_each_call(prior, run, calls.drop_last());
        lemma_after_call(prior, run.each_call(calls.drop_last()), calls.last());
    }
}

proof fn lemma_after_delta(prior: Seq<Event>, run: Run, choice: Tree)
    ensures
        after(prior, run).delta(choice) == after(prior, run.delta(choice)),
{
    if let Some(delta) = choice.get("delta"@) {
        lemma_after_basics(prior, run);
        let a = run.role(delta);
        lemma_after_basics(prior, a);
        lemma_after_basics(prior, a.start_message());
        if let Some(text) = crate::json::str_member(delta, "content"@) {
            lemma_after_emit(
                prior,
                a.start_message().open_text(),
                Event::TextDelta { index: 0, text },
            );
        }
        let b = a.content(delta);
        lemma_after_basics(prior, b);
        lemma_after_basics(prior, b.start_message());
        if let Some(calls) = array_member(delta, "tool_calls"@) {
            lemma_after_each_call(prior, b.start_message().close_text(), calls);
        }
    }
}

proof fn lemma_after_finish(prior: Seq<Event>, run: Run, choice: Tree)
    ensures
        after(prior, run).finish(choice) == after(prior, run.finish(choice)),
{
    if let Some(reason) = crate::json::str_member(choice, "finish_reason"@) {
        let reason = crate::stream::openai_stop(reason);
        lemma_after_basics(prior, run);
        lemma_after_basics(prior, run.close_text());
        lemma_after_stop_message(prior, run.close_text().close_tools(), reason);
        lemma_after_basics(prior, run.close_text().close_tools().stop_message(reason));
    }
}

proof fn lemma_after_each_choice(prior: Seq<Event>, run: Run, choices: Seq<Tree>)
    ensures
        after(prior, run).each_choice(choices) == after(prior, run.each_choice(choices)),
    decreases choices.len(),
{
    if choices.len() > 0 {
        lemma_after_each_choice(prior, run, choices.drop_last());
        let a = run.each_choice(choices.drop_last());
        lemma_after_delta(prior, a, choices.last());
        lemma_after_finish(prior, a.delta(choices.last()), choices.last());
    }
}

proof fn lemma_after_usage(prior: Seq<Event>, run: Run, chunk: Tree)
    ensures
        after(prior, run).usage(chunk) == after(prior, run.usage(chunk)),
{
    assert(after(prior, run).usage(chunk) =~= after(prior, run.usage(chunk)));
}

proof fn lemma_after_respond(
    prior: Seq<Event>,
    run: Run,
    id: Seq<char>,
    model: Seq<char>,
    created: u64,
)
    ensures
        after(prior, run).respond(id, model, created) == after(
            prior,
            run.respond(id, model, created),
        ),
{
    assert(after(prior, run).respond(id, model, created) =~= after(
        prior,
        run.respond(id, model, created),
    ));
}

/// What an input makes the parser emit and remember does not depend on what
/// was emitted before: a session's events are those of its calls, one after
/// another.
pub proof fn events_accumulate(run: Run, input: Input)
    ensures
        step(run, input) == after(run.out, step(fresh(run.state), input)),
{
    let prior = run.out;
    let start = fresh(run.state);
    assert(after(prior, start) =~= run);
    match input {
        Input::Chunk(chunk) => {
            if let Some(error) = chunk.get("error"@) {
                lemma_after_emit(
                    prior,
                    start,
                    Event::Error {
                        message: crate::json::str_member_or(error, "message"@, "upstream error"@),
                    },
                );
            } else {
                let id = crate::json::str_member_or(chunk, "id"@, "unknown"@);
                let model = crate::json::str_member_or(chunk, "model"@, "unknown"@);
                let created = match crate::json::u64_member(chunk, "created"@) {
                    Some(n) => n,
                    None => 0,
                };
                lemma_after_respond(prior, start, id, model, created);
                let begun = start.respond(id, model, created);
                lemma_after_usage(prior, begun, chunk);
                if let Some(choices) = array_member(chunk, "choices"@) {
                    lemma_after_each_choice(prior, begun, choices);
                    lemma_after_usage(prior, begun.each_choice(choices), chunk);
                }
            }
        },
        Input::Done => {
            lemma_after_respond(prior, start, start.state.id, start.state.model, 0);
            let a = start.respond(start.state.id, start.state.model, 0);
            lemma_after_basics(prior, a);
            lemma_after_basics(prior, a.start_message());
            lemma_after_basics(prior, a.start_message().close_text());
            let d = a.start_message().close_text().close_tools();
            lemma_after_stop_message(prior, d, Stop::EndTurn);
            lemma_after_basics(prior, d.stop_message(Stop::EndTurn));
            lemma_after_basics(prior, d.stop_message(Stop::EndTurn).stop_response());
        },
        Input::End => {
            lemma_after_basics(prior, start);
            lemma_after_basics(prior, start.start_message());
            lemma_after_basics(prior, start.start_message().close_text());
            let d = start.start_message().close_text().close_tools();
            lemma_after_stop_message(prior, d, Stop::EndTurn);
            lemma_after_basics(prior, d.stop_message(Stop::EndTurn));
        },
    }
}

} // verus!
