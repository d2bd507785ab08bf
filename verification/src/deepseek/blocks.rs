//! How the DeepSeek parser brackets its blocks.
use vstd::prelude::*;

use super::response::{
    call_number, fresh, initial_state, is_said, numbered, tool_position, tool_stops, well_formed,
    MixState, Run,
};
use crate::json::{array_member, str_member, Tree};
use crate::lifecycle::{lemma_blocks_concat, lemma_blocks_push, observe_blocks};
use crate::oai_chat_wire::interleaved_reasoning::{block_kind, delta, DeltaKind};
use crate::stream::{ContentBlockKind, Event};

verus! {

/// The numbers of open tool blocks.
pub open spec fn tool_set(tools: Seq<(u32, u32)>) -> Set<u32>
    decreases tools.len(),
{
    if tools.len() == 0 {
        Set::empty()
    } else {
        tool_set(tools.drop_last()).insert(tools.last().1)
    }
}

/// The numbers of all open blocks.
pub open spec fn open_blocks(state: MixState) -> Set<u32> {
    match state.mix.open {
        Some((_, index)) => tool_set(state.tools).insert(index),
        None => tool_set(state.tools),
    }
}

/// The invariant of the parser while text and reasoning keep out of open tool
/// calls: either the interleaver has a block open, or tool blocks are.
pub open spec fn valid(state: MixState) -> bool {
    &&& well_formed(state)
    &&& match state.mix.open {
        Some((_, index)) => index < state.mix.next && state.tools.len() == 0,
        None => true,
    }
}

/// A run whose events, seen from the blocks in `from`, obey the block rule.
pub open spec fn sound(from: Set<u32>, run: Run) -> bool {
    valid(run.state) && observe_blocks(Some(from), run.out) == Some(open_blocks(run.state))
}

/// Whether a delta says nothing while a tool block is open.
pub open spec fn calm_delta(state: MixState, delta: Tree) -> bool {
    is_said(str_member(delta, "reasoning_content"@)) + is_said(str_member(delta, "content"@)) > 0
        ==> state.tools.len() == 0
}

/// Whether no choice says anything while a tool block is open.
pub open spec fn calm_choices(run: Run, choices: Seq<Tree>) -> bool
    decreases choices.len(),
{
    if choices.len() == 0 {
        true
    } else {
        calm_choices(run, choices.drop_last()) && (match choices.last().get("delta"@) {
            Some(delta) => calm_delta(run.each_choice(choices.drop_last()).state, delta),
            None => true,
        })
    }
}

proof fn lemma_tool_set(tools: Seq<(u32, u32)>, i: int)
    requires
        0 <= i < tools.len(),
    ensures
        tool_set(tools).contains(tools[i].1),
    decreases tools.len(),
{
    if i < tools.len() - 1 {
        lemma_tool_set(tools.drop_last(), i);
    }
}

proof fn lemma_tool_set_member(tools: Seq<(u32, u32)>, index: u32) -> (i: int)
    requires
        tool_set(tools).contains(index),
    ensures
        0 <= i < tools.len(),
        tools[i].1 == index,
    decreases tools.len(),
{
    if tools.len() == 0 {
        0
    } else if tools.last().1 == index {
        tools.len() - 1
    } else {
        lemma_tool_set_member(tools.drop_last(), index)
    }
}

proof fn lemma_start_message(from: Set<u32>, run: Run)
    requires
        sound(from, run),
    ensures
        sound(from, run.start_message()),
        run.start_message().state.mix == run.state.mix,
        run.start_message().state.tools == run.state.tools,
{
    lemma_blocks_push(
        Some(from),
        run.out,
        Event::MessageStart { role: crate::canonical::MessageRole::Assistant },
    );
}

proof fn lemma_flush(from: Set<u32>, run: Run)
    requires
        sound(from, run),
    ensures
        sound(from, run.flush()),
        run.flush().state.mix.open is None,
        run.flush().state.tools == run.state.tools,
{
    lemma_blocks_concat(Some(from), run.out, run.state.mix.flush_events());
    if let Some((_, index)) = run.state.mix.open {
        let stop = Event::ContentBlockStop { index };
        assert(run.state.mix.flush_events() =~= Seq::<Event>::empty().push(stop));
        lemma_blocks_push(Some(open_blocks(run.state)), Seq::<Event>::empty(), stop);
        assert(open_blocks(run.state).remove(index) =~= open_blocks(run.flush().state));
    }
}

proof fn lemma_mixed(from: Set<u32>, run: Run, kind: DeltaKind, text: Option<Seq<char>>)
    requires
        sound(from, run),
        is_said(text) > 0 ==> run.state.tools.len() == 0,
        run.state.mix.next < u32::MAX,
    ensures
        sound(from, run.mixed(kind, text)),
        run.mixed(kind, text).state.tools == run.state.tools,
{
    lemma_start_message(from, run);
    let begun = run.start_message();
    if is_said(text) > 0 {
        let text = text->0;
        let mix = begun.state.mix;
        let after = run.mixed(kind, Some(text)).state;
        lemma_blocks_concat(Some(from), begun.out, mix.push_events(kind, text));
        let open = open_blocks(begun.state);
        if mix.opens(kind, text) {
            lemma_flush(from, begun);
            let start = Event::ContentBlockStart { index: mix.next, kind: block_kind(kind) };
            let said = delta(kind, mix.next, text);
            let tail = Seq::<Event>::empty().push(start).push(said);
            assert(mix.push_events(kind, text) =~= mix.flush_events() + tail);
            lemma_blocks_concat(Some(open), mix.flush_events(), tail);
            lemma_blocks_concat(Some(from), begun.out, mix.flush_events());
            let closed = open_blocks(begun.flush().state);
            assert(observe_blocks(Some(open), mix.flush_events()) == Some(closed));
            assert(closed =~= Set::<u32>::empty());
            lemma_blocks_push(Some(closed), Seq::<Event>::empty(), start);
            lemma_blocks_push(Some(closed), Seq::<Event>::empty().push(start), said);
            assert(open_blocks(after) =~= Set::<u32>::empty().insert(mix.next));
        } else {
            let said = delta(kind, (mix.open->0).1, text);
            assert(mix.push_events(kind, text) =~= Seq::<Event>::empty().push(said));
            lemma_blocks_push(Some(open), Seq::<Event>::empty(), said);
        }
    }
}

proof fn lemma_open_tool(from: Set<u32>, run: Run, call: u32)
    requires
        sound(from, run),
        run.state.mix.open is None,
        numbered(run.state) < u32::MAX,
    ensures
        sound(from, run.open_tool(call)),
        run.open_tool(call).state.mix == run.state.mix,
        numbered(run.open_tool(call).state) <= numbered(run.state) + 1,
        open_blocks(run.open_tool(call).state).contains(run.open_tool(call).block_of(call)),
{
    let tools = run.state.tools;
    let p = tool_position(tools, call, 0);
    lemma_position(tools, call, 0);
    if p < tools.len() {
        lemma_tool_set(tools, p);
    } else {
        let index = numbered(run.state) as u32;
        let after = run.open_tool(call);
        lemma_blocks_push(
            Some(from),
            run.out,
            Event::ContentBlockStart { index, kind: ContentBlockKind::ToolCall },
        );
        if tool_set(tools).contains(index) {
            let i = lemma_tool_set_member(tools, index);
            assert(tools[i].1 < numbered(run.state));
            assert(false);
        }
        let grown = tools.push((call, index));
        assert(grown.drop_last() =~= tools);
        assert forall|i: int, j: int| 0 <= i < j < grown.len() implies (#[trigger] grown[i]).1 < (
        #[trigger] grown[j]).1 by {
            assert(grown[i] == tools[i]);
            if j < tools.len() {
                assert(grown[j] == tools[j]);
            } else {
                assert(tools[i].1 < numbered(run.state));
            }
        }
        assert forall|i: int| 0 <= i < grown.len() implies (#[trigger] grown[i]).1 < numbered(
            after.state,
        ) by {
            if i < tools.len() {
                assert(grown[i] == tools[i]);
            }
        }
        lemma_position_push(tools, call, index, 0);
        lemma_tool_set(grown, tools.len() as int);
    }
}

proof fn lemma_position(tools: Seq<(u32, u32)>, call: u32, from: int)
    requires
        0 <= from <= tools.len(),
    ensures
        from <= tool_position(tools, call, from) <= tools.len(),
    decreases tools.len() - from,
{
    if from < tools.len() && tools[from].0 != call {
        lemma_position(tools, call, from + 1);
    }
}

proof fn lemma_position_push(tools: Seq<(u32, u32)>, call: u32, index: u32, from: int)
    requires
        0 <= from <= tools.len(),
        tool_position(tools, call, from) == tools.len(),
    ensures
        tool_position(tools.push((call, index)), call, from) == tools.len(),
    decreases tools.len() - from,
{
    if from < tools.len() {
        lemma_position_push(tools, call, index, from + 1);
    }
}

proof fn lemma_call(from: Set<u32>, run: Run, call: Tree)
    requires
        sound(from, run),
        run.state.mix.open is None,
        numbered(run.state) < u32::MAX,
    ensures
        sound(from, run.call(call)),
        run.call(call).state.mix == run.state.mix,
        numbered(run.call(call).state) <= numbered(run.state) + 1,
{
    let number = call_number(call);
    lemma_open_tool(from, run, number);
    let opened = run.open_tool(number);
    let index = opened.block_of(number);
    let name = crate::openai_compatible::parse_stream::function_member_or(call, "name"@, ""@);
    if let Some(id) = str_member(call, "id"@) {
        lemma_blocks_push(Some(from), opened.out, Event::ToolCallStart { index, id, name });
    }
    let started = match str_member(call, "id"@) {
        Some(id) => opened.emit(Event::ToolCallStart { index, id, name }),
        None => opened,
    };
    if let Some(text) = crate::openai_compatible::parse_stream::function_member(
        call,
        "arguments"@,
    ) {
        lemma_blocks_push(
            Some(from),
            started.out,
            Event::ToolCallArgumentsDelta { index, json_fragment: text },
        );
    }
}

proof fn lemma_each_call(from: Set<u32>, run: Run, calls: Seq<Tree>)
    requires
        sound(from, run),
        run.state.mix.open is None,
        numbered(run.state) + calls.len() <= u32::MAX,
    ensures
        sound(from, run.each_call(calls)),
        run.each_call(calls).state.mix == run.state.mix,
        numbered(run.each_call(calls).state) <= numbered(run.state) + calls.len(),
    decreases calls.len(),
{
    if calls.len() > 0 {
        lemma_each_call(from, run, calls.drop_last());
        lemma_call(from, run.each_call(calls.drop_last()), calls.last());
    }
}

proof fn lemma_tool_stops(open: Set<u32>, tools: Seq<(u32, u32)>)
    requires
        forall|i: int, j: int|
            0 <= i < j < tools.len() ==> (#[trigger] tools[i]).1 < (#[trigger] tools[j]).1,
        forall|i: int| 0 <= i < tools.len() ==> open.contains((#[trigger] tools[i]).1),
    ensures
        observe_blocks(Some(open), tool_stops(tools)) == Some(open.difference(tool_set(tools))),
    decreases tools.len(),
{
    if tools.len() == 0 {
        assert(open.difference(tool_set(tools)) =~= open);
    } else {
        let before = tools.drop_last();
        let last = tools.last().1;
        assert forall|i: int, j: int| 0 <= i < j < before.len() implies (#[trigger] before[i]).1 < (
        #[trigger] before[j]).1 by {
            assert(before[i] == tools[i] && before[j] == tools[j]);
        }
        assert forall|i: int| 0 <= i < before.len() implies open.contains(
            (#[trigger] before[i]).1,
        ) by {
            assert(before[i] == tools[i]);
        }
        lemma_tool_stops(open, before);
        let stop = Event::ToolCallStop { index: last };
        lemma_blocks_push(Some(open), tool_stops(before), stop);
        lemma_blocks_push(
            Some(open),
            tool_stops(before).push(stop),
            Event::ContentBlockStop { index: last },
        );
        if tool_set(before).contains(last) {
            let i = lemma_tool_set_member(before, last);
            assert(tools[i].1 < tools[tools.len() - 1].1);
            assert(false);
        }
        assert(open.contains(tools[tools.len() - 1].1));
        assert(open.difference(tool_set(before)).remove(last) =~= open.difference(
            tool_set(tools),
        ));
    }
}

proof fn lemma_close_tools(from: Set<u32>, run: Run)
    requires
        sound(from, run),
        run.state.mix.open is None,
    ensures
        sound(from, run.close_tools()),
        open_blocks(run.close_tools().state) == Set::<u32>::empty(),
{
    let tools = run.state.tools;
    assert forall|i: int| 0 <= i < tools.len() implies tool_set(tools).contains(
        (#[trigger] tools[i]).1,
    ) by {
        lemma_tool_set(tools, i);
    }
    lemma_tool_stops(tool_set(tools), tools);
    lemma_blocks_concat(Some(from), run.out, tool_stops(tools));
    assert(tool_set(tools).difference(tool_set(tools)) =~= Set::<u32>::empty());
    assert(open_blocks(run.close_tools().state) =~= Set::<u32>::empty());
}

proof fn lemma_delta(from: Set<u32>, run: Run, delta: Tree)
    requires
        sound(from, run),
        calm_delta(run.state, delta),
        numbered(run.state) + super::response::delta_blocks(delta) <= u32::MAX,
    ensures
        sound(from, run.delta(delta)),
        numbered(run.delta(delta).state) <= numbered(run.state) + super::response::delta_blocks(
            delta,
        ),
{
    lemma_start_message(from, run);
    let begun = if str_member(delta, "role"@) is Some {
        run.start_message()
    } else {
        run
    };
    let reasoning = str_member(delta, "reasoning_content"@);
    let content = str_member(delta, "content"@);
    if is_said(reasoning) > 0 {
        lemma_mixed(from, begun, DeltaKind::Reasoning, reasoning);
    }
    let thought = begun.mixed(DeltaKind::Reasoning, reasoning);
    assert(sound(from, thought) && thought.state.tools == run.state.tools);
    if is_said(content) > 0 {
        lemma_mixed(from, thought, DeltaKind::Text, content);
    }
    let said = thought.mixed(DeltaKind::Text, content);
    assert(sound(from, said) && said.state.tools == run.state.tools);
    if let Some(calls) = array_member(delta, "tool_calls"@) {
        lemma_start_message(from, said);
        lemma_flush(from, said.start_message());
        lemma_each_call(from, said.start_message().flush(), calls);
    }
}

proof fn lemma_finish(from: Set<u32>, run: Run, choice: Tree)
    requires
        sound(from, run),
    ensures
        sound(from, run.finish(choice)),
        numbered(run.finish(choice).state) <= numbered(run.state),
{
    if let Some(reason) = str_member(choice, "finish_reason"@) {
        lemma_flush(from, run);
        lemma_close_tools(from, run.flush());
        let closed = run.flush().close_tools();
        lemma_blocks_push(
            Some(from),
            closed.out,
            Event::MessageStop {
                stop_reason: crate::stream::openai_stop(reason),
                stop_sequence: None,
            },
        );
    }
}

proof fn lemma_each_choice(from: Set<u32>, run: Run, choices: Seq<Tree>)
    requires
        sound(from, run),
        calm_choices(run, choices),
        numbered(run.state) + super::response::choices_blocks(choices) <= u32::MAX,
    ensures
        sound(from, run.each_choice(choices)),
        numbered(run.each_choice(choices).state) <= numbered(run.state)
            + super::response::choices_blocks(choices),
    decreases choices.len(),
{
    if choices.len() > 0 {
        let before = run.each_choice(choices.drop_last());
        let choice = choices.last();
        lemma_each_choice(from, run, choices.drop_last());
        match choice.get("delta"@) {
            Some(delta) => {
                lemma_delta(from, before, delta);
                lemma_finish(from, before.delta(delta), choice);
            },
            None => lemma_finish(from, before, choice),
        }
    }
}

/// Whether a chunk says nothing while a tool block is open.
pub open spec fn calm_chunk(state: MixState, chunk: Tree) -> bool {
    match array_member(chunk, "choices"@) {
        Some(choices) => calm_choices(begun(fresh(state), chunk), choices),
        None => true,
    }
}

/// A run after the response was announced.
pub open spec fn begun(run: Run, chunk: Tree) -> Run {
    run.respond(
        crate::json::str_member_or(chunk, "id"@, "unknown"@),
        crate::json::str_member_or(chunk, "model"@, "unknown"@),
        match crate::json::u64_member(chunk, "created"@) {
            Some(n) => n,
            None => 0,
        },
    )
}

/// Text and reasoning may open a block under the number of an open tool call.
/// Where they keep out of open tool calls, the events of a chunk obey the
/// block rule and lead to the parser's next state.
pub proof fn calm_chunk_is_bracketed(state: MixState, chunk: Tree)
    requires
        valid(state),
        calm_chunk(state, chunk),
        super::response::chunk_fits(state, chunk),
    ensures
        sound(open_blocks(state), fresh(state).chunk(chunk)),
{
    let from = open_blocks(state);
    let run = fresh(state);
    assert(sound(from, run));
    if let Some(error) = chunk.get("error"@) {
        lemma_blocks_push(
            Some(from),
            run.out,
            Event::Error {
                message: crate::json::str_member_or(error, "message"@, "upstream error"@),
            },
        );
    } else {
        let id = crate::json::str_member_or(chunk, "id"@, "unknown"@);
        let model = crate::json::str_member_or(chunk, "model"@, "unknown"@);
        let created = match crate::json::u64_member(chunk, "created"@) {
            Some(n) => n,
            None => 0,
        };
        lemma_blocks_push(
            Some(from),
            run.out,
            Event::ResponseStart { id, model, created_at_unix: created },
        );
        let first = begun(run, chunk);
        assert(sound(from, first));
        let spoken = match array_member(chunk, "choices"@) {
            Some(choices) => first.each_choice(choices),
            None => first,
        };
        if let Some(choices) = array_member(chunk, "choices"@) {
            lemma_each_choice(from, first, choices);
        }
        if let Some(raw) = chunk.get("usage"@) {
            lemma_blocks_push(
                Some(from),
                spoken.out,
                Event::UsageDelta { usage: super::usage::mapped(raw) },
            );
        }
    }
}

/// The sentinel closes every block.
pub proof fn done_closes_every_block(state: MixState)
    requires
        valid(state),
    ensures
        sound(open_blocks(state), fresh(state).done()),
        open_blocks(fresh(state).done().state) == Set::<u32>::empty(),
{
    let from = open_blocks(state);
    let run = fresh(state);
    assert(sound(from, run));
    lemma_flush(from, run);
    lemma_close_tools(from, run.flush());
    let closed = run.flush().close_tools();
    lemma_blocks_push(Some(from), closed.out, Event::ResponseStop { usage: None });
    assert(open_blocks(fresh(state).done().state) =~= open_blocks(closed.state));
}

/// The first state is valid, with no block open.
pub proof fn first_state_is_valid()
    ensures
        valid(initial_state()),
        open_blocks(initial_state()) == Set::<u32>::empty(),
{
}

/// Tool blocks are closed in ascending order of their numbers.
pub proof fn tool_blocks_close_in_order(tools: Seq<(u32, u32)>, i: int, j: int)
    requires
        forall|a: int, b: int|
            0 <= a < b < tools.len() ==> (#[trigger] tools[a]).1 < (#[trigger] tools[b]).1,
        0 <= i < j < tools.len(),
    ensures
        tool_stops(tools).len() == 2 * tools.len(),
        tool_stops(tools)[2 * i] == (Event::ToolCallStop { index: tools[i].1 }),
        tool_stops(tools)[2 * i + 1] == (Event::ContentBlockStop { index: tools[i].1 }),
        tools[i].1 < tools[j].1,
{
    lemma_tool_stops_at(tools, i);
}

proof fn lemma_tool_stops_at(tools: Seq<(u32, u32)>, i: int)
    requires
        0 <= i < tools.len(),
    ensures
        tool_stops(tools).len() == 2 * tools.len(),
        tool_stops(tools)[2 * i] == (Event::ToolCallStop { index: tools[i].1 }),
        tool_stops(tools)[2 * i + 1] == (Event::ContentBlockStop { index: tools[i].1 }),
    decreases tools.len(),
{
    if tools.len() > 1 {
        lemma_tool_stops_at(tools.drop_last(), if i < tools.len() - 1 {
            i
        } else {
            0
        });
    } else {
        assert(tool_stops(tools.drop_last()) =~= Seq::<Event>::empty());
    }
}

} // verus!
