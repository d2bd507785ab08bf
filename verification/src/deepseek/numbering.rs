//! How the DeepSeek parser numbers, orders and closes the blocks of a stream.
use vstd::prelude::*;

use super::blocks::begun;
use super::response::{
    call_number, choice_blocks, choices_blocks, chunk_blocks, chunk_fits, delta_blocks, fresh,
    initial_state, is_said, numbered, tool_position, tool_stops, MixState, Run,
};
use crate::json::{array_member, str_member, Tree};
use crate::lifecycle::{block_numbers, counts_up};
use crate::oai_chat_wire::interleaved_reasoning::{block_kind, delta, DeltaKind};
use crate::stream::{ContentBlockKind, Event};

verus! {

// ---------------------------------------------------------------------------
// Model
// ---------------------------------------------------------------------------

/// What an observer of the blocks notes: the next number, the open block of
/// text or reasoning, the open tool blocks in the order in which they opened,
/// the tool block that is being closed, and whether there was a tool block.
#[verifier::ext_equal]
pub struct Ledger {
    pub next: int,
    pub said: Option<u32>,
    pub tools: Seq<u32>,
    pub stopping: Option<u32>,
    pub tooled: bool,
}

/// Nothing noted.
pub open spec fn empty_ledger() -> Ledger {
    Ledger { next: 0, said: None, tools: seq![], stopping: None, tooled: false }
}

/// Whether every block is closed.
pub open spec fn settled(l: Ledger) -> bool {
    l.said is None && l.tools.len() == 0 && l.stopping is None
}

/// The rule for one event. A block opens under the next number, with no block
/// of text or reasoning open, and one of text or reasoning only before the
/// first tool block. Tool blocks close in the order of their numbers, each
/// right after its call has stopped, and the message ends with every block
/// closed. There is no state after an event that breaks the rule.
pub open spec fn note(ledger: Option<Ledger>, event: Event) -> Option<Ledger> {
    match ledger {
        None => None,
        Some(l) => match l.stopping {
            Some(i) => if event == (Event::ContentBlockStop { index: i }) {
                Some(Ledger { tools: l.tools.drop_first(), stopping: None, ..l })
            } else {
                None
            },
            None => match event {
                Event::ContentBlockStart { index, kind } => if l.said is Some || index != l.next {
                    None
                } else if kind == ContentBlockKind::ToolCall {
                    Some(
                        Ledger {
                            next: l.next + 1,
                            tools: l.tools.push(index),
                            tooled: true,
                            ..l
                        },
                    )
                } else if l.tooled {
                    None
                } else {
                    Some(Ledger { next: l.next + 1, said: Some(index), ..l })
                },
                Event::ToolCallStop { index } => if l.tools.len() > 0 && l.tools[0] == index {
                    Some(Ledger { stopping: Some(index), ..l })
                } else {
                    None
                },
                Event::ContentBlockStop { index } => if l.said == Some(index) {
                    Some(Ledger { said: None, ..l })
                } else {
                    None
                },
                Event::MessageStop { .. } => if settled(l) {
                    Some(l)
                } else {
                    None
                },
                _ => Some(l),
            },
        },
    }
}

/// The rule for a sequence of events.
pub open spec fn note_all(ledger: Option<Ledger>, out: Seq<Event>) -> Option<Ledger>
    decreases out.len(),
{
    if out.len() == 0 {
        ledger
    } else {
        note(note_all(ledger, out.drop_last()), out.last())
    }
}

/// The only choice of a chunk.
pub open spec fn only_choice(chunk: Tree) -> Option<Tree> {
    match array_member(chunk, "choices"@) {
        Some(choices) if choices.len() == 1 => Some(choices[0]),
        _ => None,
    }
}

/// The delta of the only choice of a chunk.
pub open spec fn only_delta(chunk: Tree) -> Option<Tree> {
    match only_choice(chunk) {
        Some(choice) => choice.get("delta"@),
        None => None,
    }
}

/// Whether a chunk brings text or reasoning.
pub open spec fn says(chunk: Tree) -> bool {
    match only_delta(chunk) {
        Some(delta) => is_said(str_member(delta, "reasoning_content"@)) + is_said(
            str_member(delta, "content"@),
        ) > 0,
        None => false,
    }
}

/// Whether a chunk brings tool calls.
pub open spec fn calls(chunk: Tree) -> bool {
    match only_delta(chunk) {
        Some(delta) => match array_member(delta, "tool_calls"@) {
            Some(calls) => calls.len() > 0,
            None => false,
        },
        None => false,
    }
}

/// Whether a chunk has a finish reason.
pub open spec fn finishes(chunk: Tree) -> bool {
    match only_choice(chunk) {
        Some(choice) => is_said(str_member(choice, "finish_reason"@)) > 0,
        None => false,
    }
}

/// The state after chunks.
pub open spec fn state_after(chunks: Seq<Tree>) -> MixState
    decreases chunks.len(),
{
    if chunks.len() == 0 {
        initial_state()
    } else {
        fresh(state_after(chunks.drop_last())).chunk(chunks.last()).state
    }
}

/// The events of chunks.
pub open spec fn events_of(chunks: Seq<Tree>) -> Seq<Event>
    decreases chunks.len(),
{
    if chunks.len() == 0 {
        seq![]
    } else {
        events_of(chunks.drop_last()) + fresh(state_after(chunks.drop_last())).chunk(
            chunks.last(),
        ).out
    }
}

/// A stream without errors, of at most one choice to a chunk, where only the
/// last chunk may have a finish reason, nothing is said after tool calls have
/// come, and there is a number for every block.
pub open spec fn calm(chunks: Seq<Tree>) -> bool {
    &&& forall|i: int| 0 <= i < chunks.len() ==> (#[trigger] chunks[i]).get("error"@) is None
    &&& forall|i: int|
        0 <= i < chunks.len() ==> match array_member(#[trigger] chunks[i], "choices"@) {
            Some(choices) => choices.len() <= 1,
            None => true,
        }
    &&& forall|i: int| 0 <= i < chunks.len() - 1 ==> !finishes(#[trigger] chunks[i])
    &&& forall|i: int, j: int|
        0 <= j < i < chunks.len() && says(#[trigger] chunks[i]) ==> !calls(#[trigger] chunks[j])
    &&& forall|i: int|
        0 <= i < chunks.len() ==> chunk_fits(state_after(chunks.take(i)), #[trigger] chunks[i])
}

// ---------------------------------------------------------------------------
// Lemmas
// ---------------------------------------------------------------------------

proof fn lemma_note_push(ledger: Option<Ledger>, out: Seq<Event>, event: Event)
    ensures
        note_all(ledger, out.push(event)) == note(note_all(ledger, out), event),
{
    assert(out.push(event).drop_last() =~= out);
}

proof fn lemma_note_concat(ledger: Option<Ledger>, a: Seq<Event>, b: Seq<Event>)
    ensures
        note_all(ledger, a + b) == note_all(note_all(ledger, a), b),
    decreases b.len(),
{
    if b.len() == 0 {
        assert(a + b =~= a);
    } else {
        assert((a + b).drop_last() =~= a + b.drop_last());
        lemma_note_concat(ledger, a, b.drop_last());
    }
}

proof fn lemma_note_counts(out: Seq<Event>)
    requires
        note_all(Some(empty_ledger()), out) is Some,
    ensures
        counts_up(block_numbers(out)),
        note_all(Some(empty_ledger()), out)->0.next == block_numbers(out).len(),
    decreases out.len(),
{
    if out.len() > 0 {
        lemma_note_counts(out.drop_last());
    }
}

/// The numbers of tool blocks.
spec fn tool_numbers(tools: Seq<(u32, u32)>) -> Seq<u32> {
    Seq::new(tools.len(), |i: int| tools[i].1)
}

/// What is noted in a state of the parser.
spec fn ledger_of(state: MixState) -> Ledger {
    Ledger {
        next: numbered(state) as int,
        said: match state.mix.open {
            Some((_, index)) => Some(index),
            None => None,
        },
        tools: tool_numbers(state.tools),
        stopping: None,
        tooled: state.tools.len() > 0,
    }
}

/// Whether text and reasoning are closed once there is a tool block.
spec fn quiet(state: MixState) -> bool {
    state.mix.open is Some ==> state.tools.len() == 0
}

/// A run whose events, noted from `from` on, keep the rule.
spec fn sound(from: Ledger, run: Run) -> bool {
    quiet(run.state) && note_all(Some(from), run.out) == Some(ledger_of(run.state))
}

proof fn lemma_start_message(from: Ledger, run: Run)
    requires
        sound(from, run),
    ensures
        sound(from, run.start_message()),
        run.start_message().state.mix == run.state.mix,
        run.start_message().state.tools == run.state.tools,
{
    lemma_note_push(
        Some(from),
        run.out,
        Event::MessageStart { role: crate::canonical::MessageRole::Assistant },
    );
}

proof fn lemma_flush(from: Ledger, run: Run)
    requires
        sound(from, run),
    ensures
        sound(from, run.flush()),
        run.flush().state.mix.open is None,
        run.flush().state.mix.next == run.state.mix.next,
        run.flush().state.tools == run.state.tools,
{
    lemma_note_concat(Some(from), run.out, run.state.mix.flush_events());
    if let Some((_, index)) = run.state.mix.open {
        let stop = Event::ContentBlockStop { index };
        assert(run.state.mix.flush_events() =~= Seq::<Event>::empty().push(stop));
        lemma_note_push(Some(ledger_of(run.state)), Seq::<Event>::empty(), stop);
    }
}

proof fn lemma_mixed(from: Ledger, run: Run, kind: DeltaKind, text: Option<Seq<char>>)
    requires
        sound(from, run),
        is_said(text) > 0 ==> run.state.tools.len() == 0 && run.state.mix.next < u32::MAX,
    ensures
        sound(from, run.mixed(kind, text)),
        run.mixed(kind, text).state.tools == run.state.tools,
        numbered(run.mixed(kind, text).state) <= numbered(run.state) + is_said(text),
{
    lemma_start_message(from, run);
    let begun = run.start_message();
    if is_said(text) > 0 {
        let text = text->0;
        let mix = begun.state.mix;
        let open = ledger_of(begun.state);
        lemma_note_concat(Some(from), begun.out, mix.push_events(kind, text));
        if mix.opens(kind, text) {
            lemma_flush(from, begun);
            let start = Event::ContentBlockStart { index: mix.next, kind: block_kind(kind) };
            let said = delta(kind, mix.next, text);
            let tail = Seq::<Event>::empty().push(start).push(said);
            assert(mix.push_events(kind, text) =~= mix.flush_events() + tail);
            lemma_note_concat(Some(open), mix.flush_events(), tail);
            lemma_note_concat(Some(from), begun.out, mix.flush_events());
            let closed = ledger_of(begun.flush().state);
            lemma_note_push(Some(closed), Seq::<Event>::empty(), start);
            lemma_note_push(Some(closed), Seq::<Event>::empty().push(start), said);
            assert(ledger_of(run.mixed(kind, Some(text)).state) =~= Ledger {
                next: closed.next + 1,
                said: Some(mix.next),
                ..closed
            });
        } else {
            let said = delta(kind, (mix.open->0).1, text);
            assert(mix.push_events(kind, text) =~= Seq::<Event>::empty().push(said));
            lemma_note_push(Some(open), Seq::<Event>::empty(), said);
        }
    }
}

proof fn lemma_call(from: Ledger, run: Run, call: Tree)
    requires
        sound(from, run),
        run.state.mix.open is None,
        numbered(run.state) < u32::MAX,
    ensures
        sound(from, run.call(call)),
        run.call(call).state.mix == run.state.mix,
        numbered(run.call(call).state) <= numbered(run.state) + 1,
{
    let number = call_number(call);
    let tools = run.state.tools;
    let index = numbered(run.state) as u32;
    let opened = run.open_tool(number);
    if !(tool_position(tools, number, 0) < tools.len()) {
        lemma_note_push(
            Some(from),
            run.out,
            Event::ContentBlockStart { index, kind: ContentBlockKind::ToolCall },
        );
        assert(tool_numbers(tools.push((number, index))) =~= tool_numbers(tools).push(index));
    }
    assert(sound(from, opened));
    let block = opened.block_of(number);
    let name = crate::openai_compatible::parse_stream::function_member_or(call, "name"@, ""@);
    if let Some(id) = str_member(call, "id"@) {
        lemma_note_push(Some(from), opened.out, Event::ToolCallStart { index: block, id, name });
    }
    let started = match str_member(call, "id"@) {
        Some(id) => opened.emit(Event::ToolCallStart { index: block, id, name }),
        None => opened,
    };
    if let Some(text) = crate::openai_compatible::parse_stream::function_member(
        call,
        "arguments"@,
    ) {
        lemma_note_push(
            Some(from),
            started.out,
            Event::ToolCallArgumentsDelta { index: block, json_fragment: text },
        );
    }
}

proof fn lemma_each_call(from: Ledger, run: Run, calls: Seq<Tree>)
    requires
        sound(from, run),
        run.state.mix.open is None,
        numbered(run.state) + calls.len() <= u32::MAX,
    ensures
        sound(from, run.each_call(calls)),
        run.each_call(calls).state.mix == run.state.mix,
        numbered(run.each_call(calls).state) <= numbered(run.state) + calls.len(),
        calls.len() == 0 ==> run.each_call(calls).state.tools == run.state.tools,
    decreases calls.len(),
{
    if calls.len() > 0 {
        lemma_each_call(from, run, calls.drop_last());
        lemma_call(from, run.each_call(calls.drop_last()), calls.last());
    }
}

proof fn lemma_delta(from: Ledger, run: Run, delta: Tree)
    requires
        sound(from, run),
        is_said(str_member(delta, "reasoning_content"@)) + is_said(str_member(delta, "content"@))
            > 0 ==> run.state.tools.len() == 0,
        numbered(run.state) + delta_blocks(delta) <= u32::MAX,
    ensures
        sound(from, run.delta(delta)),
        run.delta(delta).state.tools.len() > 0 ==> run.state.tools.len() > 0 || match array_member(
            delta,
            "tool_calls"@,
        ) {
            Some(calls) => calls.len() > 0,
            None => false,
        },
{
    lemma_start_message(from, run);
    let begun = if str_member(delta, "role"@) is Some {
        run.start_message()
    } else {
        run
    };
    let reasoning = str_member(delta, "reasoning_content"@);
    let content = str_member(delta, "content"@);
    lemma_mixed(from, begun, DeltaKind::Reasoning, reasoning);
    let thought = begun.mixed(DeltaKind::Reasoning, reasoning);
    lemma_mixed(from, thought, DeltaKind::Text, content);
    let said = thought.mixed(DeltaKind::Text, content);
    if let Some(calls) = array_member(delta, "tool_calls"@) {
        lemma_start_message(from, said);
        lemma_flush(from, said.start_message());
        lemma_each_call(from, said.start_message().flush(), calls);
    }
}

proof fn lemma_tool_stops(l: Ledger, tools: Seq<(u32, u32)>, more: Seq<u32>)
    requires
        l.stopping is None,
        l.tools == tool_numbers(tools) + more,
    ensures
        note_all(Some(l), tool_stops(tools)) == Some(Ledger { tools: more, ..l }),
    decreases tools.len(),
{
    if tools.len() == 0 {
        assert(l.tools =~= more);
    } else {
        let before = tools.drop_last();
        let last = tools.last().1;
        assert(tool_numbers(tools) + more =~= tool_numbers(before) + (seq![last] + more));
        lemma_tool_stops(l, before, seq![last] + more);
        let stop = Event::ToolCallStop { index: last };
        lemma_note_push(Some(l), tool_stops(before), stop);
        lemma_note_push(
            Some(l),
            tool_stops(before).push(stop),
            Event::ContentBlockStop { index: last },
        );
        assert((seq![last] + more).drop_first() =~= more);
    }
}

proof fn lemma_finish(from: Ledger, run: Run, choice: Tree)
    requires
        sound(from, run),
    ensures
        is_said(str_member(choice, "finish_reason"@)) == 0 ==> run.finish(choice) == run,
        is_said(str_member(choice, "finish_reason"@)) > 0 ==> {
            &&& note_all(Some(from), run.finish(choice).out) is Some
            &&& settled(note_all(Some(from), run.finish(choice).out)->0)
        },
{
    if is_said(str_member(choice, "finish_reason"@)) > 0 {
        let reason = str_member(choice, "finish_reason"@)->0;
        lemma_flush(from, run);
        let flushed = run.flush();
        let tools = flushed.state.tools;
        let open = ledger_of(flushed.state);
        assert(open.tools =~= tool_numbers(tools) + seq![]);
        lemma_tool_stops(open, tools, seq![]);
        lemma_note_concat(Some(from), flushed.out, tool_stops(tools));
        lemma_note_push(
            Some(from),
            flushed.close_tools().out,
            Event::MessageStop {
                stop_reason: crate::stream::openai_stop(reason),
                stop_sequence: None,
            },
        );
    }
}

proof fn lemma_chunk(state: MixState, chunk: Tree)
    requires
        quiet(state),
        chunk.get("error"@) is None,
        match array_member(chunk, "choices"@) {
            Some(choices) => choices.len() <= 1,
            None => true,
        },
        says(chunk) ==> state.tools.len() == 0,
        chunk_fits(state, chunk),
    ensures
        !finishes(chunk) ==> sound(ledger_of(state), fresh(state).chunk(chunk)),
        !finishes(chunk) && fresh(state).chunk(chunk).state.tools.len() > 0 ==> state.tools.len()
            > 0 || calls(chunk),
        finishes(chunk) ==> {
            let end = note_all(Some(ledger_of(state)), fresh(state).chunk(chunk).out);
            end is Some && settled(end->0)
        },
{
    let from = ledger_of(state);
    let run = fresh(state);
    let id = crate::json::str_member_or(chunk, "id"@, "unknown"@);
    let model = crate::json::str_member_or(chunk, "model"@, "unknown"@);
    let created = match crate::json::u64_member(chunk, "created"@) {
        Some(n) => n,
        None => 0,
    };
    lemma_note_push(
        Some(from),
        run.out,
        Event::ResponseStart { id, model, created_at_unix: created },
    );
    let first = begun(run, chunk);
    assert(sound(from, first));
    assert(numbered(first.state) == numbered(state));
    let spoken = match array_member(chunk, "choices"@) {
        Some(choices) => first.each_choice(choices),
        None => first,
    };
    if let Some(choice) = only_choice(chunk) {
        let choices = array_member(chunk, "choices"@)->0;
        reveal_with_fuel(Run::each_choice, 2);
        reveal_with_fuel(choices_blocks, 2);
        assert(choices.drop_last() =~= seq![]);
        assert(choices.last() == choice);
        assert(chunk_blocks(chunk) == choice_blocks(choice));
        assert(spoken == first.choice(choice));
        if let Some(delta) = only_delta(chunk) {
            lemma_delta(from, first, delta);
            lemma_finish(from, first.delta(delta), choice);
        } else {
            lemma_finish(from, first, choice);
        }
    } else if let Some(choices) = array_member(chunk, "choices"@) {
        assert(choices.len() == 0);
        assert(spoken == first);
    }
    if let Some(raw) = chunk.get("usage"@) {
        lemma_note_push(
            Some(from),
            spoken.out,
            Event::UsageDelta { usage: super::usage::mapped(raw) },
        );
    }
}

proof fn lemma_calm_before(chunks: Seq<Tree>)
    requires
        calm(chunks),
        chunks.len() > 0,
    ensures
        calm(chunks.drop_last()),
{
    let fewer = chunks.drop_last();
    assert forall|i: int| 0 <= i < fewer.len() implies (#[trigger] fewer[i]).get("error"@) is None
        && (match array_member(fewer[i], "choices"@) {
        Some(choices) => choices.len() <= 1,
        None => true,
    }) && !finishes(fewer[i]) && chunk_fits(state_after(fewer.take(i)), fewer[i]) by {
        assert(fewer[i] == chunks[i]);
        assert(fewer.take(i) =~= chunks.take(i));
    }
    assert forall|i: int, j: int|
        0 <= j < i < fewer.len() && says(#[trigger] fewer[i]) implies !calls(
        #[trigger] fewer[j],
    ) by {
        assert(fewer[i] == chunks[i]);
        assert(fewer[j] == chunks[j]);
    }
}

proof fn lemma_unfinished(chunks: Seq<Tree>)
    requires
        calm(chunks),
        chunks.len() > 0 ==> !finishes(chunks.last()),
    ensures
        quiet(state_after(chunks)),
        note_all(Some(empty_ledger()), events_of(chunks)) == Some(ledger_of(state_after(chunks))),
        state_after(chunks).tools.len() > 0 ==> exists|j: int|
            0 <= j < chunks.len() && calls(#[trigger] chunks[j]),
    decreases chunks.len(), 1int,
{
    if chunks.len() == 0 {
        assert(ledger_of(initial_state()) =~= empty_ledger());
    } else {
        lemma_last(chunks);
        let fewer = chunks.drop_last();
        let state = state_after(fewer);
        let run = fresh(state).chunk(chunks.last());
        lemma_note_concat(Some(empty_ledger()), events_of(fewer), run.out);
        if state_after(chunks).tools.len() > 0 {
            if calls(chunks.last()) {
                assert(calls(chunks[chunks.len() - 1]));
            } else {
                let j = choose|j: int| 0 <= j < fewer.len() && calls(#[trigger] fewer[j]);
                assert(calls(chunks[j]));
            }
        }
    }
}

/// What the last chunk of a calm stream does.
proof fn lemma_last(chunks: Seq<Tree>)
    requires
        calm(chunks),
        chunks.len() > 0,
    ensures
        ({
            let fewer = chunks.drop_last();
            let state = state_after(fewer);
            let chunk = chunks.last();
            let run = fresh(state).chunk(chunk);
            &&& quiet(state)
            &&& note_all(Some(empty_ledger()), events_of(fewer)) == Some(ledger_of(state))
            &&& state.tools.len() > 0 ==> exists|j: int|
                0 <= j < fewer.len() && calls(#[trigger] fewer[j])
            &&& !finishes(chunk) ==> sound(ledger_of(state), run)
            &&& !finishes(chunk) && run.state.tools.len() > 0 ==> state.tools.len() > 0 || calls(
                chunk,
            )
            &&& finishes(chunk) ==> {
                let end = note_all(Some(ledger_of(state)), run.out);
                end is Some && settled(end->0)
            }
        }),
    decreases chunks.len(), 0int,
{
    let fewer = chunks.drop_last();
    let last = chunks.len() - 1;
    lemma_calm_before(chunks);
    if fewer.len() > 0 {
        assert(fewer.last() == chunks[last - 1]);
    }
    lemma_unfinished(fewer);
    let state = state_after(fewer);
    assert(chunks[last] == chunks.last());
    assert(chunks.take(last) =~= fewer);
    if says(chunks[last]) && state.tools.len() > 0 {
        let j = choose|j: int| 0 <= j < fewer.len() && calls(#[trigger] fewer[j]);
        assert(calls(chunks[j]));
        assert(false);
    }
    lemma_chunk(state, chunks.last());
}

// ---------------------------------------------------------------------------
// The law
// ---------------------------------------------------------------------------

/// The blocks of a calm stream are numbered zero, one, two and so on in the
/// order in which they open, tool blocks behind all text and reasoning. Each
/// block closes once, tool blocks in the order of their numbers and each right
/// after its call has stopped. At a finish reason every block is closed, before
/// the message ends.
pub proof fn calm_stream_numbers_its_blocks_in_order(chunks: Seq<Tree>)
    requires
        calm(chunks),
    ensures
        note_all(Some(empty_ledger()), events_of(chunks)) is Some,
        counts_up(block_numbers(events_of(chunks))),
        chunks.len() > 0 && finishes(chunks.last()) ==> settled(
            note_all(Some(empty_ledger()), events_of(chunks))->0,
        ),
{
    if chunks.len() > 0 && finishes(chunks.last()) {
        lemma_last(chunks);
        let fewer = chunks.drop_last();
        lemma_note_concat(
            Some(empty_ledger()),
            events_of(fewer),
            fresh(state_after(fewer)).chunk(chunks.last()).out,
        );
    } else {
        lemma_unfinished(chunks);
    }
    lemma_note_counts(events_of(chunks));
}

} // verus!
