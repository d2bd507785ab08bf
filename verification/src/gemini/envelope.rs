//! The laws of the Generate Content parser: the envelope that its events
//! keep, and that nothing the model says is lost.
use vstd::prelude::*;

use super::response::{
    after_part, after_parts, blocks_of, call_events, call_id, ending, feedback_events, finish_stop,
    gathered, is_data, new_session, numbers_fit, opens, part_events, parts_events, run_block, said,
    Chunk, Gathered, Session,
};
use super::wire::{PartModel, UsageMetadata};
use crate::canonical::{BlockModel, MessageRole};
use crate::json::Tree;
use crate::lifecycle::{
    all_ended, all_in_row, block_numbers, blocks_in_a_row_count_up, counts_up,
    envelope_marks_happen_once, lemma_observe_concat, lemma_row_concat, nothing_seen, observe_all,
    tally, Row, Tally, Track,
};
use crate::oai_chat_wire::interleaved_reasoning::{
    block_kind, carried, delta, lemma_carried_concat, DeltaKind, Interleaving,
};
use crate::stream::{Event, Stop};

verus! {

/// The blocks that are open.
pub open spec fn open_blocks(at: Interleaving) -> Set<u32> {
    match at.open {
        Some((_, index)) => Set::empty().insert(index),
        None => Set::empty(),
    }
}

/// What an observer knows in the middle of a message.
pub open spec fn inside(at: Interleaving) -> Track {
    Track {
        responded: true,
        message_started: true,
        message_stopped: false,
        response_stopped: false,
        open: open_blocks(at),
    }
}

/// What an observer knows in a session.
pub open spec fn track_of(session: Session) -> Track {
    if session.stopped {
        all_ended()
    } else if session.started {
        inside(session.at)
    } else {
        nothing_seen()
    }
}

/// The invariant of a session: no block is open before the start or after the
/// stop, and only what started has stopped.
pub open spec fn valid(session: Session) -> bool {
    &&& (!session.started || session.stopped) ==> session.at.open is None
    &&& session.stopped ==> session.started
}

proof fn lemma_flush(at: Interleaving)
    ensures
        observe_all(Some(inside(at)), at.flush_events()) == Some(inside(at.flushed())),
{
    reveal_with_fuel(observe_all, 2);
    if at.open is Some {
        assert(at.flush_events().drop_last() =~= seq![]);
        assert(open_blocks(at).remove((at.open->0).1) =~= Set::<u32>::empty());
    }
}

proof fn lemma_call(at: Interleaving, id: Seq<char>, name: Seq<char>, args: Option<Tree>)
    requires
        at.open is None,
    ensures
        observe_all(Some(inside(at)), call_events(at.next, id, name, args)) == Some(inside(at)),
{
    reveal_with_fuel(observe_all, 6);
    let s = call_events(at.next, id, name, args);
    assert(s.drop_last() =~= s.take(4));
    assert(s.take(4).drop_last() =~= s.take(3));
    assert(s.take(3).drop_last() =~= s.take(2));
    assert(s.take(2).drop_last() =~= s.take(1));
    assert(s.take(1).drop_last() =~= seq![]);
    assert(Set::<u32>::empty().insert(at.next).remove(at.next) =~= Set::<u32>::empty());
}

proof fn lemma_part(at: Interleaving, part: PartModel, fresh: Seq<char>)
    ensures
        observe_all(Some(inside(at)), part_events(at, part, fresh)) == Some(
            inside(after_part(at, part)),
        ),
{
    reveal_with_fuel(observe_all, 3);
    lemma_flush(at);
    match part.function_call {
        Some((name, args, id)) => {
            let call = call_events(at.next, call_id(id, fresh), name, args);
            lemma_call(at.flushed(), call_id(id, fresh), name, args);
            lemma_observe_concat(Some(inside(at)), at.flush_events(), call);
        },
        None => match said(part) {
            Some((kind, text)) => {
                if opens(at, part) {
                    let tail = seq![
                        Event::ContentBlockStart { index: at.next, kind: block_kind(kind) },
                        delta(kind, at.next, text),
                    ];
                    assert(tail.drop_last() =~= seq![tail[0]]);
                    assert(seq![tail[0]].drop_last() =~= seq![]);
                    lemma_observe_concat(Some(inside(at)), at.flush_events(), tail);
                } else {
                    let one = seq![delta(kind, (at.open->0).1, text)];
                    assert(one.drop_last() =~= seq![]);
                }
            },
            None => {
                if is_data(part) {
                    lemma_flush(at);
                }
            },
        },
    }
}

proof fn lemma_parts(at: Interleaving, parts: Seq<PartModel>, fresh: Seq<Seq<char>>)
    ensures
        observe_all(Some(inside(at)), parts_events(at, parts, fresh)) == Some(
            inside(after_parts(at, parts)),
        ),
    decreases parts.len(),
{
    if parts.len() > 0 {
        let before = parts.drop_last();
        lemma_parts(at, before, fresh);
        lemma_part(after_parts(at, before), parts.last(), fresh[parts.len() - 1]);
        lemma_observe_concat(
            Some(inside(at)),
            parts_events(at, before, fresh),
            part_events(after_parts(at, before), parts.last(), fresh[parts.len() - 1]),
        );
    }
}

proof fn lemma_ending(at: Interleaving, stop: Stop, usage: Option<UsageMetadata>)
    ensures
        observe_all(Some(inside(at)), ending(at, stop, usage)) == Some(all_ended()),
{
    reveal_with_fuel(observe_all, 3);
    lemma_flush(at);
    let tail = seq![
        Event::MessageStop { stop_reason: stop, stop_sequence: None },
        Event::ResponseStop { usage: super::response::opt_usage_counts(usage) },
    ];
    assert(tail.drop_last() =~= seq![tail[0]]);
    assert(seq![tail[0]].drop_last() =~= seq![]);
    lemma_observe_concat(Some(inside(at)), at.flush_events(), tail);
}

/// The events of a chunk keep the envelope, whatever the chunk brings.
pub proof fn chunk_keeps_the_envelope(
    session: Session,
    chunk: Chunk,
    fresh: Seq<Seq<char>>,
    now: u64,
)
    requires
        valid(session),
    ensures
        valid(session.after(chunk)),
        observe_all(Some(track_of(session)), session.chunk_events(chunk, fresh, now)) == Some(
            track_of(session.after(chunk)),
        ),
{
    if !session.stopped {
        let from = Some(track_of(session));
        let opening = session.opening(now);
        let body = parts_events(session.at, chunk.parts, fresh);
        reveal_with_fuel(observe_all, 3);
        if !session.started {
            assert(opening.drop_last() =~= seq![opening[0]]);
            assert(seq![opening[0]].drop_last() =~= seq![]);
        }
        assert(observe_all(from, opening) == Some(inside(session.at)));
        let feedback = feedback_events(chunk.feedback);
        if chunk.feedback is Some {
            assert(feedback.drop_last() =~= seq![]);
        }
        lemma_observe_concat(from, opening, feedback);
        lemma_parts(session.at, chunk.parts, fresh);
        lemma_observe_concat(from, opening + feedback, body);
        if chunk.finish is Some {
            let at = after_parts(session.at, chunk.parts);
            let stop = finish_stop(
                chunk.finish,
                session.has_call || super::response::any_call(chunk.parts),
            );
            let usage = session.latest_usage(chunk);
            lemma_ending(at, stop, usage);
            lemma_observe_concat(from, opening + feedback + body, ending(at, stop, usage));
        }
    }
}

/// The end of the upstream completes the envelope of a stream that started.
pub proof fn finalize_completes_the_envelope(session: Session)
    requires
        valid(session),
        session.started,
    ensures
        observe_all(Some(track_of(session)), session.final_events()) == Some(all_ended()),
        session.finalized().stopped,
{
    if !session.stopped {
        lemma_ending(session.at, finish_stop(None, session.has_call), session.usage);
    }
}

/// Once stopped, a stream stays as it is: later chunks and a later end bring
/// nothing.
pub proof fn nothing_follows_the_stop(
    session: Session,
    chunk: Chunk,
    fresh: Seq<Seq<char>>,
    now: u64,
)
    requires
        session.stopped,
    ensures
        session.after(chunk) == session,
        session.chunk_events(chunk, fresh, now) == Seq::<Event>::empty(),
        session.finalized() == session,
        session.final_events() == Seq::<Event>::empty(),
{
}

/// What arrives at one moment: a chunk, identifiers, and the time.
pub struct Arrival {
    pub chunk: Chunk,
    pub fresh: Seq<Seq<char>>,
    pub now: u64,
}

/// The state after what arrived.
pub open spec fn session_after(session: Session, arrivals: Seq<Arrival>) -> Session
    decreases arrivals.len(),
{
    if arrivals.len() == 0 {
        session
    } else {
        session_after(session, arrivals.drop_last()).after(arrivals.last().chunk)
    }
}

/// The events of what arrived.
pub open spec fn session_events(session: Session, arrivals: Seq<Arrival>) -> Seq<Event>
    decreases arrivals.len(),
{
    if arrivals.len() == 0 {
        seq![]
    } else {
        let last = arrivals.last();
        session_events(session, arrivals.drop_last()) + session_after(
            session,
            arrivals.drop_last(),
        ).chunk_events(last.chunk, last.fresh, last.now)
    }
}

proof fn lemma_session(session: Session, arrivals: Seq<Arrival>)
    requires
        valid(session),
    ensures
        valid(session_after(session, arrivals)),
        observe_all(Some(track_of(session)), session_events(session, arrivals)) == Some(
            track_of(session_after(session, arrivals)),
        ),
        arrivals.len() > 0 ==> session_after(session, arrivals).started,
    decreases arrivals.len(),
{
    if arrivals.len() > 0 {
        let before = arrivals.drop_last();
        let last = arrivals.last();
        lemma_session(session, before);
        let middle = session_after(session, before);
        chunk_keeps_the_envelope(middle, last.chunk, last.fresh, last.now);
        lemma_observe_concat(
            Some(track_of(session)),
            session_events(session, before),
            middle.chunk_events(last.chunk, last.fresh, last.now),
        );
    }
}

/// From the first chunk to the end of the upstream, every stream is one
/// complete envelope: one response, one message, and every block closed.
pub proof fn every_session_is_a_complete_envelope(
    model: Seq<char>,
    response_id: Seq<char>,
    arrivals: Seq<Arrival>,
)
    requires
        arrivals.len() > 0,
    ensures
        ({
            let start = new_session(model, response_id);
            observe_all(
                Some(nothing_seen()),
                session_events(start, arrivals) + session_after(start, arrivals).final_events(),
            ) == Some(all_ended())
        }),
{
    let start = new_session(model, response_id);
    lemma_session(start, arrivals);
    let end = session_after(start, arrivals);
    finalize_completes_the_envelope(end);
    lemma_observe_concat(
        Some(nothing_seen()),
        session_events(start, arrivals),
        end.final_events(),
    );
}

/// The next number and the open block, as a row of blocks.
pub open spec fn row_of(at: Interleaving) -> Row {
    Row {
        next: at.next as int,
        open: match at.open {
            Some((_, index)) => Some(index),
            None => None,
        },
    }
}

/// Whether there is a number for every block of what arrived.
pub open spec fn arrivals_fit(session: Session, arrivals: Seq<Arrival>) -> bool
    decreases arrivals.len(),
{
    arrivals.len() == 0 || {
        let before = session_after(session, arrivals.drop_last());
        &&& arrivals_fit(session, arrivals.drop_last())
        &&& before.stopped || numbers_fit(before.at, arrivals.last().chunk.parts)
    }
}

proof fn lemma_row_flush(at: Interleaving)
    ensures
        all_in_row(Some(row_of(at)), at.flush_events()) == Some(row_of(at.flushed())),
{
    reveal_with_fuel(all_in_row, 2);
    if at.open is Some {
        assert(at.flush_events().drop_last() =~= seq![]);
    }
}

proof fn lemma_row_part(at: Interleaving, part: PartModel, fresh: Seq<char>)
    requires
        opens(at, part) ==> at.next < u32::MAX,
    ensures
        all_in_row(Some(row_of(at)), part_events(at, part, fresh)) == Some(
            row_of(after_part(at, part)),
        ),
{
    reveal_with_fuel(all_in_row, 6);
    lemma_row_flush(at);
    match part.function_call {
        Some((name, args, id)) => {
            let s = call_events(at.next, call_id(id, fresh), name, args);
            assert(s.drop_last() =~= s.take(4));
            assert(s.take(4).drop_last() =~= s.take(3));
            assert(s.take(3).drop_last() =~= s.take(2));
            assert(s.take(2).drop_last() =~= s.take(1));
            assert(s.take(1).drop_last() =~= seq![]);
            lemma_row_concat(Some(row_of(at)), at.flush_events(), s);
        },
        None => match said(part) {
            Some((kind, text)) => {
                if opens(at, part) {
                    let tail = seq![
                        Event::ContentBlockStart { index: at.next, kind: block_kind(kind) },
                        delta(kind, at.next, text),
                    ];
                    assert(tail.drop_last() =~= seq![tail[0]]);
                    assert(seq![tail[0]].drop_last() =~= seq![]);
                    lemma_row_concat(Some(row_of(at)), at.flush_events(), tail);
                } else {
                    let one = seq![delta(kind, (at.open->0).1, text)];
                    assert(one.drop_last() =~= seq![]);
                }
            },
            None => {},
        },
    }
}

proof fn lemma_row_parts(at: Interleaving, parts: Seq<PartModel>, fresh: Seq<Seq<char>>)
    requires
        numbers_fit(at, parts),
    ensures
        all_in_row(Some(row_of(at)), parts_events(at, parts, fresh)) == Some(
            row_of(after_parts(at, parts)),
        ),
    decreases parts.len(),
{
    if parts.len() > 0 {
        let before = parts.drop_last();
        lemma_row_parts(at, before, fresh);
        lemma_row_part(after_parts(at, before), parts.last(), fresh[parts.len() - 1]);
        lemma_row_concat(
            Some(row_of(at)),
            parts_events(at, before, fresh),
            part_events(after_parts(at, before), parts.last(), fresh[parts.len() - 1]),
        );
    }
}

proof fn lemma_row_ending(at: Interleaving, stop: Stop, usage: Option<UsageMetadata>)
    ensures
        all_in_row(Some(row_of(at)), ending(at, stop, usage)) == Some(row_of(at.flushed())),
{
    reveal_with_fuel(all_in_row, 3);
    lemma_row_flush(at);
    let tail = seq![
        Event::MessageStop { stop_reason: stop, stop_sequence: None },
        Event::ResponseStop { usage: super::response::opt_usage_counts(usage) },
    ];
    assert(tail.drop_last() =~= seq![tail[0]]);
    assert(seq![tail[0]].drop_last() =~= seq![]);
    lemma_row_concat(Some(row_of(at)), at.flush_events(), tail);
}

proof fn lemma_row_chunk(session: Session, arrival: Arrival)
    requires
        session.stopped || numbers_fit(session.at, arrival.chunk.parts),
    ensures
        all_in_row(
            Some(row_of(session.at)),
            session.chunk_events(arrival.chunk, arrival.fresh, arrival.now),
        ) == Some(row_of(session.after(arrival.chunk).at)),
{
    if !session.stopped {
        let chunk = arrival.chunk;
        let from = Some(row_of(session.at));
        let opening = session.opening(arrival.now);
        let feedback = feedback_events(chunk.feedback);
        let body = parts_events(session.at, chunk.parts, arrival.fresh);
        reveal_with_fuel(all_in_row, 3);
        if !session.started {
            assert(opening.drop_last() =~= seq![opening[0]]);
            assert(seq![opening[0]].drop_last() =~= seq![]);
        }
        if chunk.feedback is Some {
            assert(feedback.drop_last() =~= seq![]);
        }
        lemma_row_concat(from, opening, feedback);
        lemma_row_parts(session.at, chunk.parts, arrival.fresh);
        lemma_row_concat(from, opening + feedback, body);
        if chunk.finish is Some {
            let at = after_parts(session.at, chunk.parts);
            let stop = finish_stop(
                chunk.finish,
                session.has_call || super::response::any_call(chunk.parts),
            );
            let usage = session.latest_usage(chunk);
            lemma_row_ending(at, stop, usage);
            lemma_row_concat(from, opening + feedback + body, ending(at, stop, usage));
        }
    }
}

proof fn lemma_row_session(session: Session, arrivals: Seq<Arrival>)
    requires
        arrivals_fit(session, arrivals),
    ensures
        all_in_row(Some(row_of(session.at)), session_events(session, arrivals)) == Some(
            row_of(session_after(session, arrivals).at),
        ),
    decreases arrivals.len(),
{
    if arrivals.len() > 0 {
        let before = arrivals.drop_last();
        let last = arrivals.last();
        lemma_row_session(session, before);
        let middle = session_after(session, before);
        lemma_row_chunk(middle, last);
        lemma_row_concat(
            Some(row_of(session.at)),
            session_events(session, before),
            middle.chunk_events(last.chunk, last.fresh, last.now),
        );
    }
}

/// Whether events end with the ends of the message and of the response.
pub open spec fn ends_both(out: Seq<Event>) -> bool {
    &&& out.len() >= 2
    &&& out[out.len() - 2] is MessageStop
    &&& out[out.len() - 1] is ResponseStop
}

proof fn lemma_ends(session: Session, arrivals: Seq<Arrival>)
    requires
        !session.started,
        !session.stopped,
    ensures
        ({
            let out = session_events(session, arrivals);
            let end = session_after(session, arrivals);
            &&& end.model == session.model
            &&& end.response_id == session.response_id
            &&& end.started == (arrivals.len() > 0)
            &&& arrivals.len() > 0 ==> {
                &&& out.len() >= 2
                &&& out[0] == Event::ResponseStart {
                    id: session.response_id,
                    model: session.model,
                    created_at_unix: arrivals[0].now,
                }
                &&& out[1] == Event::MessageStart { role: MessageRole::Assistant }
            }
            &&& end.stopped ==> ends_both(out)
            &&& arrivals.len() == 0 ==> !end.stopped && out.len() == 0
        }),
    decreases arrivals.len(),
{
    if arrivals.len() > 0 {
        lemma_ends(session, arrivals.drop_last());
    }
}

/// From the first chunk to the end of the upstream, a stream begins with the
/// announcements of the response and the message and ends with the ends of the
/// message and the response, and each of the four comes exactly once. Its
/// blocks are numbered zero, one, two and so on, and each is closed under its
/// number before the next opens and before the message ends.
pub proof fn every_session_opens_its_blocks_in_order(
    model: Seq<char>,
    response_id: Seq<char>,
    arrivals: Seq<Arrival>,
)
    requires
        arrivals.len() > 0,
        arrivals_fit(new_session(model, response_id), arrivals),
    ensures
        ({
            let start = new_session(model, response_id);
            let out = session_events(start, arrivals) + session_after(
                start,
                arrivals,
            ).final_events();
            &&& out.len() >= 4
            &&& out[0] == Event::ResponseStart {
                id: response_id,
                model,
                created_at_unix: arrivals[0].now,
            }
            &&& out[1] == Event::MessageStart { role: MessageRole::Assistant }
            &&& ends_both(out)
            &&& tally(out) == Tally {
                response_starts: 1,
                message_starts: 1,
                message_stops: 1,
                response_stops: 1,
            }
            &&& counts_up(block_numbers(out))
            &&& all_in_row(Some(Row { next: 0, open: None }), out) is Some
            &&& all_in_row(Some(Row { next: 0, open: None }), out)->0.open is None
        }),
{
    let start = new_session(model, response_id);
    let body = session_events(start, arrivals);
    let end = session_after(start, arrivals);
    let last = end.final_events();
    let out = body + last;
    every_session_is_a_complete_envelope(model, response_id, arrivals);
    envelope_marks_happen_once(out);
    lemma_session(start, arrivals);
    lemma_ends(start, arrivals);
    lemma_row_session(start, arrivals);
    if end.stopped {
        assert(out =~= body);
    } else {
        lemma_row_ending(end.at, finish_stop(None, end.has_call), end.usage);
        lemma_row_concat(Some(row_of(start.at)), body, last);
        assert(out[out.len() - 2] == last[last.len() - 2]);
        assert(out[out.len() - 1] == last[last.len() - 1]);
    }
    blocks_in_a_row_count_up(out);
    if body.len() == 2 {
        assert(!(body[1] is ResponseStop));
    } else if body.len() == 3 && end.stopped {
        assert(body[1] is MessageStart);
    }
}

/// What parts say, in order.
pub open spec fn all_said(parts: Seq<PartModel>) -> Seq<(DeltaKind, Seq<char>)>
    decreases parts.len(),
{
    if parts.len() == 0 {
        seq![]
    } else {
        let before = all_said(parts.drop_last());
        match said(parts.last()) {
            Some(s) => before.push(s),
            None => before,
        }
    }
}

proof fn lemma_part_carries(at: Interleaving, part: PartModel, fresh: Seq<char>)
    ensures
        carried(part_events(at, part, fresh)) == (match said(part) {
            Some(s) => seq![s],
            None => seq![],
        }),
{
    reveal_with_fuel(carried, 6);
    if at.open is Some {
        assert(at.flush_events().drop_last() =~= seq![]);
    }
    assert(carried(at.flush_events()) =~= seq![]);
    match part.function_call {
        Some((name, args, id)) => {
            let s = call_events(at.next, call_id(id, fresh), name, args);
            assert(s.drop_last() =~= s.take(4));
            assert(s.take(4).drop_last() =~= s.take(3));
            assert(s.take(3).drop_last() =~= s.take(2));
            assert(s.take(2).drop_last() =~= s.take(1));
            assert(s.take(1).drop_last() =~= seq![]);
            lemma_carried_concat(at.flush_events(), s);
            assert(carried(part_events(at, part, fresh)) =~= seq![]);
        },
        None => match said(part) {
            Some((kind, text)) => {
                if opens(at, part) {
                    let tail = seq![
                        Event::ContentBlockStart { index: at.next, kind: block_kind(kind) },
                        delta(kind, at.next, text),
                    ];
                    assert(tail.drop_last() =~= seq![tail[0]]);
                    assert(seq![tail[0]].drop_last() =~= seq![]);
                    lemma_carried_concat(at.flush_events(), tail);
                } else {
                    let one = seq![delta(kind, (at.open->0).1, text)];
                    assert(one.drop_last() =~= seq![]);
                }
                assert(carried(part_events(at, part, fresh)) =~= seq![(kind, text)]);
            },
            None => {},
        },
    }
}

/// The events of a chunk's parts carry exactly what the parts say, in order
/// and each as text or reasoning as the model marked it.
pub proof fn streamed_parts_carry_what_was_said(
    at: Interleaving,
    parts: Seq<PartModel>,
    fresh: Seq<Seq<char>>,
)
    ensures
        carried(parts_events(at, parts, fresh)) == all_said(parts),
    decreases parts.len(),
{
    if parts.len() > 0 {
        let before = parts.drop_last();
        streamed_parts_carry_what_was_said(at, before, fresh);
        lemma_part_carries(after_parts(at, before), parts.last(), fresh[parts.len() - 1]);
        lemma_carried_concat(
            parts_events(at, before, fresh),
            part_events(after_parts(at, before), parts.last(), fresh[parts.len() - 1]),
        );
        assert(carried(parts_events(at, parts, fresh)) =~= all_said(parts));
    }
}

/// All that was said of one kind, as one text.
pub open spec fn said_text(deltas: Seq<(DeltaKind, Seq<char>)>, kind: DeltaKind) -> Seq<char>
    decreases deltas.len(),
{
    if deltas.len() == 0 {
        seq![]
    } else if deltas.last().0 == kind {
        said_text(deltas.drop_last(), kind) + deltas.last().1
    } else {
        said_text(deltas.drop_last(), kind)
    }
}

/// All that blocks of one kind hold, as one text.
pub open spec fn block_text(blocks: Seq<BlockModel>, kind: DeltaKind) -> Seq<char>
    decreases blocks.len(),
{
    if blocks.len() == 0 {
        seq![]
    } else {
        let before = block_text(blocks.drop_last(), kind);
        match (blocks.last(), kind) {
            (BlockModel::Text { text }, DeltaKind::Text) => before + text,
            (BlockModel::Reasoning { text }, DeltaKind::Reasoning) => before + text,
            _ => before,
        }
    }
}

proof fn lemma_block_text_push(blocks: Seq<BlockModel>, block: BlockModel, kind: DeltaKind)
    ensures
        block_text(blocks.push(block), kind) == (match (block, kind) {
            (BlockModel::Text { text }, DeltaKind::Text) => block_text(blocks, kind) + text,
            (BlockModel::Reasoning { text }, DeltaKind::Reasoning) => block_text(blocks, kind)
                + text,
            _ => block_text(blocks, kind),
        }),
{
    assert(blocks.push(block).drop_last() =~= blocks);
}

proof fn lemma_flushed_text(g: Gathered, kind: DeltaKind)
    ensures
        block_text(g.flushed().done, kind) == (match g.pending {
            Some((k, text)) if k == kind => block_text(g.done, kind) + text,
            _ => block_text(g.done, kind),
        }),
{
    if let Some((k, text)) = g.pending {
        lemma_block_text_push(g.done, run_block(k, text), kind);
    }
}

proof fn lemma_added_text(g: Gathered, block: BlockModel, kind: DeltaKind)
    requires
        !(block is Text),
        !(block is Reasoning),
    ensures
        block_text(g.added(block).flushed().done, kind) == block_text(g.flushed().done, kind),
{
    lemma_block_text_push(g.flushed().done, block, kind);
}

proof fn lemma_spoken_text(g: Gathered, k: DeltaKind, text: Seq<char>, kind: DeltaKind)
    ensures
        block_text(g.spoken(k, text).flushed().done, kind) == (if k == kind {
            block_text(g.flushed().done, kind) + text
        } else {
            block_text(g.flushed().done, kind)
        }),
{
    lemma_flushed_text(g, kind);
    lemma_flushed_text(g.spoken(k, text), kind);
    if let Some((p, before)) = g.pending {
        if p == k {
            assert(block_text(g.done, kind) + (before + text) =~= block_text(g.done, kind) + before
                + text);
        }
    }
}

/// The blocks of a whole response hold exactly the text that the parts say,
/// and exactly the reasoning.
pub proof fn whole_response_holds_what_was_said(
    parts: Seq<PartModel>,
    fresh: Seq<Seq<char>>,
    kind: DeltaKind,
)
    ensures
        block_text(blocks_of(parts, fresh), kind) == said_text(all_said(parts), kind),
    decreases parts.len(),
{
    if parts.len() > 0 {
        let before = parts.drop_last();
        let part = parts.last();
        let g = gathered(before, fresh);
        whole_response_holds_what_was_said(before, fresh, kind);
        match said(part) {
            Some((k, text)) => {
                lemma_spoken_text(g, k, text, kind);
                assert(all_said(before).push((k, text)).drop_last() =~= all_said(before));
            },
            None => {
                let after = g.with_part(part, fresh[parts.len() - 1]);
                if after.pending is None && after.done.len() > g.flushed().done.len() {
                    let block = after.done.last();
                    assert(after == g.added(block));
                    lemma_added_text(g, block, kind);
                } else {
                    assert(after.flushed() == g.flushed());
                }
            },
        }
    }
}

} // verus!
