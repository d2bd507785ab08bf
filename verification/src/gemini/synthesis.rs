//! Turns a whole response into the events of a stream.
use vstd::prelude::*;

use crate::canonical::{
    block_models, ArgumentsModel, BlockModel, ContentBlock, MessageRole, ToolCallArguments,
    ToolCallId,
};
use crate::json::opt_text;
use crate::lifecycle::{
    all_ended, between_blocks, lemma_observe_concat, nothing_seen, observe_all,
};
use crate::oai_chat_wire::canonical_to_chat::build_arguments;
use crate::oai_chat_wire::interleaved_reasoning::{block_kind, delta, DeltaKind};
use crate::stream::{
    emit, events, no_events, opt_counts, CanonicalResponse, ContentBlockKind, Event, StreamEvent,
};

verus! {

// ---------------------------------------------------------------------------
// Model
// ---------------------------------------------------------------------------

/// Whether a block has a form in a stream.
pub open spec fn streams(block: BlockModel) -> bool {
    block is Text || block is Reasoning || block is ToolCall
}

/// The events of something said.
pub open spec fn said_events(index: u32, kind: DeltaKind, text: Seq<char>) -> Seq<Event> {
    seq![
        Event::ContentBlockStart { index, kind: block_kind(kind) },
        delta(kind, index, text),
        Event::ContentBlockStop { index },
    ]
}

/// The events of a call whose arguments are already text.
pub open spec fn whole_call_events(
    index: u32,
    id: Seq<char>,
    name: Seq<char>,
    json_fragment: Seq<char>,
) -> Seq<Event> {
    seq![
        Event::ContentBlockStart { index, kind: ContentBlockKind::ToolCall },
        Event::ToolCallStart { index, id, name },
        Event::ToolCallArgumentsDelta { index, json_fragment },
        Event::ToolCallStop { index },
        Event::ContentBlockStop { index },
    ]
}

/// The events of a block. A stream has no form for binary content.
pub open spec fn block_events(index: u32, block: BlockModel) -> Seq<Event> {
    match block {
        BlockModel::Text { text } => said_events(index, DeltaKind::Text, text),
        BlockModel::Reasoning { text } => said_events(index, DeltaKind::Reasoning, text),
        BlockModel::ToolCall { id, name, arguments } => whole_call_events(
            index,
            id,
            name,
            match arguments {
                ArgumentsModel::Complete { value } => value.compact(),
                ArgumentsModel::Streaming { data } => data,
            },
        ),
        _ => seq![],
    }
}

/// How many blocks have a form in a stream.
pub open spec fn streamed_count(blocks: Seq<BlockModel>) -> nat
    decreases blocks.len(),
{
    if blocks.len() == 0 {
        0
    } else {
        streamed_count(blocks.drop_last()) + (if streams(blocks.last()) {
            1nat
        } else {
            0nat
        })
    }
}

/// The events of blocks, numbered in order.
pub open spec fn blocks_events(blocks: Seq<BlockModel>) -> Seq<Event>
    decreases blocks.len(),
{
    if blocks.len() == 0 {
        seq![]
    } else {
        let before = blocks.drop_last();
        blocks_events(before) + block_events(streamed_count(before) as u32, blocks.last())
    }
}

/// The events of a response.
pub open spec fn response_events(response: CanonicalResponse, now: u64) -> Seq<Event> {
    seq![
        Event::ResponseStart {
            id: response.id.0@,
            model: response.model@,
            created_at_unix: now,
        },
        Event::MessageStart { role: MessageRole::Assistant },
    ] + blocks_events(block_models(response.content@)) + seq![
        Event::MessageStop {
            stop_reason: response.stop_reason@,
            stop_sequence: opt_text(response.stop_sequence),
        },
        Event::ResponseStop { usage: opt_counts(response.usage) },
    ]
}

// ---------------------------------------------------------------------------
// Operations
// ---------------------------------------------------------------------------

fn emit_said(index: u32, kind: DeltaKind, text: &str, out: &mut Vec<StreamEvent>)
    ensures
        events(final(out)@) == events(old(out)@) + said_events(index, kind, text@),
{
    let ghost before = events(out@);
    match kind {
        DeltaKind::Text => {
            emit(out, StreamEvent::ContentBlockStart { index, kind: ContentBlockKind::Text });
            emit(out, StreamEvent::TextDelta { index, text: text.to_owned() });
        },
        DeltaKind::Reasoning => {
            emit(out, StreamEvent::ContentBlockStart { index, kind: ContentBlockKind::Reasoning });
            emit(out, StreamEvent::ReasoningDelta { index, text: text.to_owned() });
        },
    }
    emit(out, StreamEvent::ContentBlockStop { index });
    assert(events(out@) =~= before + said_events(index, kind, text@));
}

fn emit_call(
    index: u32,
    id: &str,
    name: &str,
    arguments: &ToolCallArguments,
    out: &mut Vec<StreamEvent>,
)
    ensures
        events(final(out)@) == events(old(out)@) + whole_call_events(
            index,
            id@,
            name@,
            match arguments@ {
                ArgumentsModel::Complete { value } => value.compact(),
                ArgumentsModel::Streaming { data } => data,
            },
        ),
{
    let ghost before = events(out@);
    let json_fragment = build_arguments(arguments);
    let ghost fragment = json_fragment@;
    emit(out, StreamEvent::ContentBlockStart { index, kind: ContentBlockKind::ToolCall });
    emit(
        out,
        StreamEvent::ToolCallStart {
            index,
            id: ToolCallId::from_provider(id),
            name: name.to_owned(),
        },
    );
    emit(out, StreamEvent::ToolCallArgumentsDelta { index, json_fragment });
    emit(out, StreamEvent::ToolCallStop { index });
    emit(out, StreamEvent::ContentBlockStop { index });
    assert(events(out@) =~= before + whole_call_events(index, id@, name@, fragment));
}

/// Turns a whole response into the events of a stream. There are none where
/// the block numbers would run out.
pub fn synthesize(response: CanonicalResponse, now: u64) -> (out: Option<Vec<StreamEvent>>)
    ensures
        match out {
            Some(out) => {
                &&& streamed_count(block_models(response.content@)) <= u32::MAX
                &&& events(out@) == response_events(response, now)
            },
            None => streamed_count(block_models(response.content@)) > u32::MAX,
        },
{
    let ghost whole = response;
    let CanonicalResponse { id, model, content, stop_reason, stop_sequence, usage } = response;
    let ghost blocks = block_models(content@);
    let mut out = no_events();
    emit(&mut out, StreamEvent::ResponseStart { id, model, created_at_unix: now });
    emit(&mut out, StreamEvent::MessageStart { role: MessageRole::Assistant });
    let ghost opening = events(out@);
    let mut index: u32 = 0;
    let mut i: usize = 0;
    assert(opening + blocks_events(blocks.take(0)) =~= opening);
    while i < content.len()
        invariant
            i <= content@.len(),
            blocks == block_models(content@),
            whole == response,
            content == whole.content,
            index == streamed_count(blocks.take(i as int)),
            events(out@) == opening + blocks_events(blocks.take(i as int)),
        decreases content.len() - i,
    {
        proof {
            assert(blocks.take(i + 1).drop_last() =~= blocks.take(i as int));
            assert(blocks.take(i + 1).last() == content@[i as int]@);
        }
        let streamed = match &content[i] {
            ContentBlock::Text(_) => true,
            ContentBlock::Reasoning(_) => true,
            ContentBlock::ToolCall(_) => true,
            _ => false,
        };
        if streamed && index == u32::MAX {
            proof {
                lemma_count_grows(blocks, i + 1);
            }
            return None;
        }
        match &content[i] {
            ContentBlock::Text(b) => emit_said(index, DeltaKind::Text, b.text.as_str(), &mut out),
            ContentBlock::Reasoning(b) => emit_said(
                index,
                DeltaKind::Reasoning,
                b.text.as_str(),
                &mut out,
            ),
            ContentBlock::ToolCall(b) => emit_call(
                index,
                b.id.0.as_str(),
                b.name.as_str(),
                &b.arguments,
                &mut out,
            ),
            _ => {},
        }
        if streamed {
            index = index + 1;
        }
        i = i + 1;
        assert(events(out@) =~= opening + blocks_events(blocks.take(i as int)));
    }
    assert(blocks.take(i as int) =~= blocks);
    emit(&mut out, StreamEvent::MessageStop { stop_reason, stop_sequence });
    emit(&mut out, StreamEvent::ResponseStop { usage });
    assert(events(out@) =~= response_events(whole, now));
    Some(out)
}

proof fn lemma_count_grows(blocks: Seq<BlockModel>, n: int)
    requires
        0 <= n <= blocks.len(),
    ensures
        streamed_count(blocks.take(n)) <= streamed_count(blocks),
    decreases blocks.len() - n,
{
    if n == blocks.len() {
        assert(blocks.take(n) =~= blocks);
    } else {
        assert(blocks.take(n + 1).drop_last() =~= blocks.take(n));
        lemma_count_grows(blocks, n + 1);
    }
}

// ---------------------------------------------------------------------------
// Laws
// ---------------------------------------------------------------------------

proof fn lemma_block_keeps_the_envelope(index: u32, block: BlockModel)
    ensures
        observe_all(Some(between_blocks()), block_events(index, block)) == Some(between_blocks()),
{
    reveal_with_fuel(observe_all, 6);
    let s = block_events(index, block);
    assert(Set::<u32>::empty().insert(index).remove(index) =~= Set::<u32>::empty());
    if s.len() == 5 {
        assert(s.drop_last() =~= s.take(4));
        assert(s.take(4).drop_last() =~= s.take(3));
        assert(s.take(3).drop_last() =~= s.take(2));
    } else if s.len() == 3 {
        assert(s.drop_last() =~= s.take(2));
    }
    if s.len() > 0 {
        assert(s.take(2).drop_last() =~= s.take(1));
        assert(s.take(1).drop_last() =~= seq![]);
    }
}

proof fn lemma_blocks_keep_the_envelope(blocks: Seq<BlockModel>)
    ensures
        observe_all(Some(between_blocks()), blocks_events(blocks)) == Some(between_blocks()),
    decreases blocks.len(),
{
    if blocks.len() > 0 {
        let before = blocks.drop_last();
        let index = streamed_count(before) as u32;
        lemma_blocks_keep_the_envelope(before);
        lemma_block_keeps_the_envelope(index, blocks.last());
        lemma_observe_concat(
            Some(between_blocks()),
            blocks_events(before),
            block_events(index, blocks.last()),
        );
    }
}

/// The events of a whole response are one complete envelope.
pub proof fn synthesized_response_is_a_complete_envelope(response: CanonicalResponse, now: u64)
    ensures
        observe_all(Some(nothing_seen()), response_events(response, now)) == Some(all_ended()),
{
    let opening = seq![
        Event::ResponseStart {
            id: response.id.0@,
            model: response.model@,
            created_at_unix: now,
        },
        Event::MessageStart { role: MessageRole::Assistant },
    ];
    let body = blocks_events(block_models(response.content@));
    let closing = seq![
        Event::MessageStop {
            stop_reason: response.stop_reason@,
            stop_sequence: opt_text(response.stop_sequence),
        },
        Event::ResponseStop { usage: opt_counts(response.usage) },
    ];
    reveal_with_fuel(observe_all, 3);
    assert(opening.drop_last() =~= seq![opening[0]]);
    assert(seq![opening[0]].drop_last() =~= seq![]);
    assert(closing.drop_last() =~= seq![closing[0]]);
    assert(seq![closing[0]].drop_last() =~= seq![]);
    lemma_blocks_keep_the_envelope(block_models(response.content@));
    lemma_observe_concat(Some(nothing_seen()), opening, body);
    lemma_observe_concat(Some(nothing_seen()), opening + body, closing);
}

} // verus!
