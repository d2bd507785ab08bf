//! How the events of the chunks of a chat stream begin, and what they never
//! hold.
use vstd::prelude::*;

use super::chat_sse_parser::{chunk_fits, Run};
use super::envelope::{every_session_keeps_the_envelope, input_fits, session, Input};
use crate::json::{array_member, Tree};
use crate::lifecycle::{blocks_open_inside_the_message, envelope_marks_happen_once, tally};
use crate::stream::Event;

verus! {

/// Whether the response is announced, with nothing but errors before it.
pub open spec fn announced(out: Seq<Event>) -> bool {
    exists|k: int|
        {
            &&& 0 <= k < out.len()
            &&& (#[trigger] out[k]) is ResponseStart
            &&& only_errors(out.take(k))
        }
}

/// Whether there is nothing but errors.
pub open spec fn only_errors(out: Seq<Event>) -> bool {
    forall|j: int| 0 <= j < out.len() ==> (#[trigger] out[j]) is Error
}

proof fn lemma_announced_concat(a: Seq<Event>, b: Seq<Event>)
    requires
        announced(a),
    ensures
        announced(a + b),
{
    let k = choose|k: int|
        {
            &&& 0 <= k < a.len()
            &&& (#[trigger] a[k]) is ResponseStart
            &&& only_errors(a.take(k))
        };
    assert((a + b)[k] == a[k]);
    assert((a + b).take(k) =~= a.take(k));
}

broadcast proof fn lemma_announced_push(out: Seq<Event>, event: Event)
    requires
        announced(out),
    ensures
        #[trigger] announced(out.push(event)),
{
    lemma_announced_concat(out, seq![event]);
    assert(out + seq![event] =~= out.push(event));
}

/// What a chunk keeps once the response is announced.
spec fn kept(from: Run, run: Run) -> bool {
    &&& run.state.response_start
    &&& run.state.response_stop == from.state.response_stop
    &&& announced(run.out)
}

proof fn lemma_calls(from: Run, run: Run, calls: Seq<Tree>)
    requires
        kept(from, run),
    ensures
        kept(from, run.each_call(calls)),
    decreases calls.len(),
{
    broadcast use lemma_announced_push;

    if calls.len() > 0 {
        lemma_calls(from, run, calls.drop_last());
    }
}

proof fn lemma_choices(from: Run, run: Run, choices: Seq<Tree>)
    requires
        kept(from, run),
    ensures
        kept(from, run.each_choice(choices)),
    decreases choices.len(),
{
    broadcast use lemma_announced_push;

    if choices.len() > 0 {
        let choice = choices.last();
        lemma_choices(from, run, choices.drop_last());
        let a = run.each_choice(choices.drop_last());
        if let Some(delta) = choice.get("delta"@) {
            let b = a.role(delta).content(delta);
            assert(kept(from, b));
            if let Some(calls) = array_member(delta, "tool_calls"@) {
                lemma_calls(from, b.start_message().close_text(), calls);
            }
        }
        let c = a.delta(choice);
        assert(kept(from, c));
        let d = c.close_text();
        lemma_announced_concat(
            d.out,
            super::chat_sse_parser::tool_stops(d.state.open_tools),
        );
        assert(kept(from, d.close_tools()));
    }
}

/// What holds of the events of chunks: nothing but errors until the response
/// is announced, and no end of the response.
spec fn chunked(run: Run) -> bool {
    &&& !run.state.response_stop
    &&& if run.state.response_start {
        announced(run.out)
    } else {
        only_errors(run.out)
    }
}

proof fn lemma_chunk(run: Run, chunk: Tree)
    requires
        chunked(run),
    ensures
        chunked(run.chunk(chunk)),
{
    broadcast use lemma_announced_push;

    if chunk.get("error"@) is None {
        let id = crate::json::str_member_or(chunk, "id"@, "unknown"@);
        let model = crate::json::str_member_or(chunk, "model"@, "unknown"@);
        let created = match crate::json::u64_member(chunk, "created"@) {
            Some(n) => n,
            None => 0,
        };
        let begun = run.respond(id, model, created);
        if !run.state.response_start {
            let k = run.out.len() as int;
            assert(begun.out[k] is ResponseStart);
            assert(begun.out.take(k) =~= run.out);
        }
        assert(kept(run, begun));
        if let Some(choices) = array_member(chunk, "choices"@) {
            lemma_choices(run, begun, choices);
        }
    }
}

/// The inputs of a parser that is given chunks alone.
pub open spec fn chunk_inputs(chunks: Seq<Tree>) -> Seq<Input> {
    Seq::new(chunks.len(), |i: int| Input::Chunk(chunks[i]))
}

proof fn lemma_chunks(chunks: Seq<Tree>)
    ensures
        chunked(session(chunk_inputs(chunks))),
    decreases chunks.len(),
{
    if chunks.len() > 0 {
        let inputs = chunk_inputs(chunks);
        assert(inputs.drop_last() =~= chunk_inputs(chunks.drop_last()));
        lemma_chunks(chunks.drop_last());
        lemma_chunk(session(inputs.drop_last()), chunks.last());
    }
}

/// All the events of the chunks of a stream, from its first on: the response
/// and the message are announced at most once and the message ends at most
/// once; no chunk ends the response; the first event that is no error announces
/// the response; and no block opens before the message is announced.
pub proof fn chunks_begin_with_the_response(chunks: Seq<Tree>)
    requires
        forall|i: int| 0 <= i < chunks.len() ==> chunk_fits(#[trigger] chunks[i]),
    ensures
        ({
            let out = session(chunk_inputs(chunks)).out;
            &&& tally(out).response_starts <= 1
            &&& tally(out).message_starts <= 1
            &&& tally(out).message_stops <= 1
            &&& tally(out).response_stops == 0
            &&& forall|i: int|
                0 <= i < out.len() && !((#[trigger] out[i]) is Error) && only_errors(out.take(i))
                    ==> out[i] is ResponseStart
            &&& forall|i: int|
                0 <= i < out.len() && (#[trigger] out[i]) is ContentBlockStart ==> exists|j: int|
                    0 <= j < i && (#[trigger] out[j]) is MessageStart
        }),
{
    let inputs = chunk_inputs(chunks);
    let run = session(inputs);
    let out = run.out;
    assert forall|i: int| 0 <= i < inputs.len() implies input_fits(#[trigger] inputs[i]) by {
        assert(chunk_fits(chunks[i]));
    }
    every_session_keeps_the_envelope(inputs);
    envelope_marks_happen_once(out);
    lemma_chunks(chunks);
    assert forall|i: int|
        0 <= i < out.len() && !((#[trigger] out[i]) is Error) && only_errors(
            out.take(i),
        ) implies out[i] is ResponseStart by {
        assert(run.state.response_start);
        let k = choose|k: int|
            {
                &&& 0 <= k < out.len()
                &&& (#[trigger] out[k]) is ResponseStart
                &&& only_errors(out.take(k))
            };
        if i < k {
            assert(out.take(k)[i] is Error);
        } else if k < i {
            assert(out.take(i)[k] is Error);
        }
    }
    assert forall|i: int| 0 <= i < out.len() && (#[trigger] out[i]) is ContentBlockStart implies (
    exists|j: int| 0 <= j < i && (#[trigger] out[j]) is MessageStart) by {
        blocks_open_inside_the_message(out, i);
    }
}

} // verus!
