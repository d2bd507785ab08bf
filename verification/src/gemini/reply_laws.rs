//! What the events and blocks of Generate Content replies say, against the
//! fields of the replies.
use vstd::prelude::*;

use super::response::{
    after_part, after_parts, any_call, blocks_of, call_id, chunk_of, ending, finish_stop, gathered,
    new_session, numbers_fit, opt_usage_counts, part_events, parts_events, parts_in,
    response_extensions, usage_counts, Chunk, Gathered, Session,
};
use super::synthesis;
use super::wire::{GenerateContentResponse, PartModel, UsageMetadata};
use crate::canonical::{ArgumentsModel, BlockModel, MessageRole, SourceModel};
use crate::json::{member, member_after_optional, member_after_set, member_of_nothing, Tree};
use crate::media::base64_bytes;
use crate::oai_chat_wire::interleaved_reasoning::{DeltaKind, Interleaving};
use crate::stream::{CanonicalResponse, ContentBlockKind, Event, Stop};

verus! {

/// Whether a count is the one reported: nothing below zero, and in the low 32
/// bits where it is longer.
pub open spec fn is_count(count: Option<u32>, reported: Option<i64>) -> bool {
    match (count, reported) {
        (Some(c), Some(n)) => if n < 0 {
            c == 0
        } else if n <= u32::MAX {
            c == n
        } else {
            (n - c) % 0x1_0000_0000 == 0
        },
        (None, None) => true,
        _ => false,
    }
}

/// Each count is that of its own field: prompt, candidates and thoughts.
pub proof fn usage_is_told(meta: UsageMetadata)
    ensures
        ({
            let c = usage_counts(meta);
            &&& is_count(c.input_tokens, meta.prompt_token_count)
            &&& is_count(c.output_tokens, meta.candidates_token_count)
            &&& is_count(c.reasoning_tokens, meta.thoughts_token_count)
            &&& c.cache_creation_input_tokens is None
            &&& c.cache_read_input_tokens is None
            &&& !c.estimated
            &&& c.provider_raw is None
        }),
        opt_usage_counts(Some(meta)) == Some(usage_counts(meta)),
        opt_usage_counts(None) is None,
{
}

/// A finish reason has its meaning. A call makes a difference only to a turn
/// that ran to its end, or of which no reason is known.
pub proof fn finish_reasons_have_their_meaning(reason: Option<Seq<char>>, has_call: bool)
    ensures
        ({
            let natural = if has_call {
                Stop::ToolUse
            } else {
                Stop::EndTurn
            };
            match reason {
                None => finish_stop(reason, has_call) == natural,
                Some(r) => {
                    &&& r == "STOP"@ ==> finish_stop(reason, has_call) == natural
                    &&& r == "MAX_TOKENS"@ ==> finish_stop(reason, has_call) == Stop::MaxTokens
                    &&& r == "SAFETY"@ || r == "RECITATION"@ ==> finish_stop(reason, has_call)
                        == Stop::ContentFilter
                    &&& r != "STOP"@ && r != "MAX_TOKENS"@ && r != "SAFETY"@ && r
                        != "RECITATION"@ ==> finish_stop(reason, has_call) == Stop::Other(r)
                },
            }
        }),
{
    reveal_strlit("STOP");
    reveal_strlit("MAX_TOKENS");
    reveal_strlit("SAFETY");
    reveal_strlit("RECITATION");
    assert("STOP"@.len() == 4 && "MAX_TOKENS"@.len() == 10 && "SAFETY"@.len() == 6
        && "RECITATION"@.len() == 10);
    assert("MAX_TOKENS"@[0] == 'M' && "RECITATION"@[0] == 'R');
}

/// The events that close the open block.
pub open spec fn closing(at: Interleaving) -> Seq<Event> {
    match at.open {
        Some((_, index)) => seq![Event::ContentBlockStop { index }],
        None => seq![],
    }
}

/// The events of a part. A call closes the open block and is a whole block of
/// its own, under its identifier or a fresh one, its name and the JSON text of
/// its arguments. Text or a thought goes on in the open block of its kind, or
/// closes the open one and opens one for itself. Data alone closes the open
/// block. Anything else says nothing.
pub proof fn part_is_told(at: Interleaving, part: PartModel, fresh: Seq<char>)
    requires
        at.next < u32::MAX,
    ensures
        ({
            let out = part_events(at, part, fresh);
            let after = after_part(at, part);
            let index = at.next;
            let next = (at.next + 1) as u32;
            match (part.function_call, part.text) {
                (Some((name, args, id)), _) => {
                    &&& out == closing(at) + seq![
                        Event::ContentBlockStart { index, kind: ContentBlockKind::ToolCall },
                        Event::ToolCallStart {
                            index,
                            id: match id {
                                Some(own) => own,
                                None => fresh,
                            },
                            name,
                        },
                        Event::ToolCallArgumentsDelta {
                            index,
                            json_fragment: match args {
                                Some(value) => value.compact(),
                                None => "{}"@,
                            },
                        },
                        Event::ToolCallStop { index },
                        Event::ContentBlockStop { index },
                    ]
                    &&& after.open is None
                    &&& after.next == next
                },
                (None, Some(text)) => if part.thought == Some(true) {
                    match at.open {
                        Some((DeltaKind::Reasoning, i)) => {
                            &&& out == seq![Event::ReasoningDelta { index: i, text }]
                            &&& after == at
                        },
                        _ => {
                            &&& out == closing(at) + seq![
                                Event::ContentBlockStart {
                                    index,
                                    kind: ContentBlockKind::Reasoning,
                                },
                                Event::ReasoningDelta { index, text },
                            ]
                            &&& after.open == Some((DeltaKind::Reasoning, index))
                            &&& after.next == next
                        },
                    }
                } else {
                    match at.open {
                        Some((DeltaKind::Text, i)) => {
                            &&& out == seq![Event::TextDelta { index: i, text }]
                            &&& after == at
                        },
                        _ => {
                            &&& out == closing(at) + seq![
                                Event::ContentBlockStart { index, kind: ContentBlockKind::Text },
                                Event::TextDelta { index, text },
                            ]
                            &&& after.open == Some((DeltaKind::Text, index))
                            &&& after.next == next
                        },
                    }
                },
                (None, None) => if part.inline_data is Some || part.file_data is Some {
                    &&& out == closing(at)
                    &&& after.open is None
                    &&& after.next == at.next
                } else {
                    &&& out.len() == 0
                    &&& after == at
                },
            }
        }),
{
    assert(at.flush_events() =~= closing(at));
}

/// Parts are told one after another.
pub proof fn parts_are_told_in_order(
    at: Interleaving,
    parts: Seq<PartModel>,
    part: PartModel,
    fresh: Seq<Seq<char>>,
)
    ensures
        parts_events(at, Seq::empty(), fresh).len() == 0,
        after_parts(at, Seq::empty()) == at,
        parts_events(at, parts.push(part), fresh) == parts_events(at, parts, fresh) + part_events(
            after_parts(at, parts),
            part,
            fresh[parts.len() as int],
        ),
        after_parts(at, parts.push(part)) == after_part(after_parts(at, parts), part),
        any_call(parts.push(part)) == (any_call(parts) || part.function_call is Some),
{
    let all = parts.push(part);
    assert(all.drop_last() =~= parts);
    assert(all[parts.len() as int] == part);
    if any_call(parts) {
        let i = choose|i: int| 0 <= i < parts.len() && (#[trigger] parts[i]).function_call is Some;
        assert(all[i] == parts[i]);
    }
    if any_call(all) {
        let i = choose|i: int| 0 <= i < all.len() && (#[trigger] all[i]).function_call is Some;
        if i < parts.len() {
            assert(parts[i] == all[i]);
        }
    }
}

/// A reply of a stream brings the parts and the finish reason of its first
/// candidate, its usage and what it says of the prompt.
pub proof fn reply_is_read(resp: GenerateContentResponse)
    ensures
        ({
            let chunk = chunk_of(resp);
            &&& chunk.usage == resp.usage_metadata
            &&& chunk.feedback is Some <==> resp.prompt_feedback is Some
            &&& if resp.candidates@.len() == 0 {
                chunk.parts.len() == 0 && chunk.finish is None
            } else {
                let candidate = resp.candidates@[0];
                &&& chunk.parts.len() == candidate.content.parts@.len()
                &&& forall|i: int|
                    0 <= i < chunk.parts.len() ==> #[trigger] chunk.parts[i]
                        == candidate.content.parts@[i]@
                &&& match (chunk.finish, candidate.finish_reason) {
                    (Some(a), Some(b)) => a == b@,
                    (None, None) => true,
                    _ => false,
                }
            }
        }),
{
}

/// What the provider says of the prompt has its reason and its ratings under the
/// names that they have on the wire, each rating with its category, its
/// probability and its verdict.
pub proof fn feedback_is_kept(feedback: super::wire::PromptFeedback, i: int)
    ensures
        ({
            let value = feedback.tree();
            &&& value.get("blockReason"@) == Some(
                match feedback.block_reason {
                    Some(reason) => Tree::Text(reason@),
                    None => Tree::Null,
                },
            )
            &&& match value.get("safetyRatings"@) {
                Some(Tree::Array(items)) => {
                    let ratings = feedback.safety_ratings@;
                    &&& items.len() == ratings.len()
                    &&& 0 <= i < items.len() ==> {
                        &&& items[i].get("category"@) == Some(Tree::Text(ratings[i].category@))
                        &&& items[i].get("probability"@) == Some(
                            Tree::Text(ratings[i].probability@),
                        )
                        &&& items[i].get("blocked"@) == Some(
                            match ratings[i].blocked {
                                Some(b) => Tree::Bool(b),
                                None => Tree::Null,
                            },
                        )
                    }
                },
                _ => false,
            }
        }),
{
    broadcast use {member_after_optional, member_after_set, member_of_nothing};

    reveal_strlit("blockReason");
    reveal_strlit("safetyRatings");
    reveal_strlit("category");
    reveal_strlit("probability");
    reveal_strlit("blocked");
    assert("blockReason"@.len() == 11 && "safetyRatings"@.len() == 13 && "category"@.len() == 8
        && "probability"@.len() == 11 && "blocked"@.len() == 7);
}

/// A chunk of a stream that is not over: the first announces the response and
/// the message, then comes what the provider says of the prompt, then the parts.
/// A finish reason closes the open block and ends the message and the response,
/// with the usage reported last, and the stream is over.
pub proof fn chunk_is_told_in_order(
    session: Session,
    chunk: Chunk,
    fresh: Seq<Seq<char>>,
    now: u64,
)
    requires
        !session.stopped,
    ensures
        ({
            let announced: Seq<Event> = if session.started {
                seq![]
            } else {
                seq![
                    Event::ResponseStart {
                        id: session.response_id,
                        model: session.model,
                        created_at_unix: now,
                    },
                    Event::MessageStart { role: MessageRole::Assistant },
                ]
            };
            let noted: Seq<Event> = match chunk.feedback {
                Some(payload) => seq![
                    Event::RawProviderEvent { name: "gemini.prompt_feedback"@, payload },
                ],
                None => seq![],
            };
            let usage = if chunk.usage is Some {
                chunk.usage
            } else {
                session.usage
            };
            let has_call = session.has_call || any_call(chunk.parts);
            let at = after_parts(session.at, chunk.parts);
            let ended: Seq<Event> = if chunk.finish is Some {
                closing(at) + seq![
                    Event::MessageStop {
                        stop_reason: finish_stop(chunk.finish, has_call),
                        stop_sequence: None,
                    },
                    Event::ResponseStop { usage: opt_usage_counts(usage) },
                ]
            } else {
                seq![]
            };
            let after = session.after(chunk);
            &&& session.chunk_events(chunk, fresh, now) == announced + noted + parts_events(
                session.at,
                chunk.parts,
                fresh,
            ) + ended
            &&& after.started
            &&& after.stopped == (chunk.finish is Some)
            &&& after.has_call == has_call
            &&& after.model == session.model
            &&& after.response_id == session.response_id
            &&& chunk.finish is None ==> after.at == at && after.usage == usage
        }),
{
    let at = after_parts(session.at, chunk.parts);
    assert(at.flush_events() =~= closing(at));
    let body = session.chunk_events(chunk, fresh, now);
    if chunk.finish is None {
        assert(body + Seq::<Event>::empty() =~= body);
    }
}

/// A new stream has announced nothing, and its blocks start at zero. The end of
/// the upstream ends a stream that started and is not over, as the end of a turn
/// of which no reason is known.
pub proof fn ends_of_streams(session: Session, model: Seq<char>, id: Seq<char>)
    ensures
        ({
            let first = new_session(model, id);
            &&& first.model == model
            &&& first.response_id == id
            &&& !first.started && !first.stopped && !first.has_call
            &&& first.at.open is None && first.at.next == 0
            &&& first.usage is None
        }),
        session.final_events() == (if session.started && !session.stopped {
            closing(session.at) + seq![
                Event::MessageStop {
                    stop_reason: if session.has_call {
                        Stop::ToolUse
                    } else {
                        Stop::EndTurn
                    },
                    stop_sequence: None,
                },
                Event::ResponseStop { usage: opt_usage_counts(session.usage) },
            ]
        } else {
            Seq::<Event>::empty()
        }),
        session.started ==> session.finalized().stopped,
        ending(session.at, Stop::EndTurn, None).len() >= 2,
{
    assert(session.at.flush_events() =~= closing(session.at));
}

/// A whole reply is gathered part by part. Text and thoughts of one kind run
/// together; a call, or data that can be read, ends the run and is a block of
/// its own; data that cannot be read only ends the run; anything else is left
/// out.
pub proof fn part_is_gathered(
    parts: Seq<PartModel>,
    part: PartModel,
    fresh: Seq<Seq<char>>,
)
    ensures
        gathered(Seq::empty(), fresh).done.len() == 0,
        gathered(Seq::empty(), fresh).pending is None,
        blocks_of(parts, fresh) == ended_run(gathered(parts, fresh)),
        ({
            let g = gathered(parts, fresh);
            let after = gathered(parts.push(part), fresh);
            match (part.function_call, part.text) {
                (Some((name, args, id)), _) => {
                    &&& after.pending is None
                    &&& after.done == ended_run(g).push(
                        BlockModel::ToolCall {
                            id: match id {
                                Some(own) => own,
                                None => fresh[parts.len() as int],
                            },
                            name,
                            arguments: ArgumentsModel::Complete {
                                value: match args {
                                    Some(value) => value,
                                    None => Tree::Object(seq![]),
                                },
                            },
                        },
                    )
                },
                (None, Some(text)) => {
                    let kind = if part.thought == Some(true) {
                        DeltaKind::Reasoning
                    } else {
                        DeltaKind::Text
                    };
                    match g.pending {
                        Some((k, before)) if k == kind => {
                            &&& after.done == g.done
                            &&& after.pending == Some((kind, before + text))
                        },
                        _ => {
                            &&& after.done == ended_run(g)
                            &&& after.pending == Some((kind, text))
                        },
                    }
                },
                (None, None) => match (part.inline_data, part.file_data) {
                    (Some((media_type, text)), _) => {
                        &&& after.pending is None
                        &&& after.done == (match base64_bytes(text) {
                            Some(data) => ended_run(g).push(
                                BlockModel::Image {
                                    source: SourceModel::Base64 { media_type, data },
                                },
                            ),
                            None => ended_run(g),
                        })
                    },
                    (None, Some((_, url))) => {
                        &&& after.pending is None
                        &&& after.done == ended_run(g).push(
                            BlockModel::Image { source: SourceModel::Url { url } },
                        )
                    },
                    (None, None) => after == g,
                },
            }
        }),
{
    assert(parts.push(part).drop_last() =~= parts);
}

/// The blocks with the run as the last of them.
pub open spec fn ended_run(g: Gathered) -> Seq<BlockModel> {
    match g.pending {
        Some((DeltaKind::Text, text)) => g.done.push(BlockModel::Text { text }),
        Some((DeltaKind::Reasoning, text)) => g.done.push(BlockModel::Reasoning { text }),
        None => g.done,
    }
}

/// What a whole reply says of itself goes with its first block: its ratings, if
/// there are any, and its citations, each under its own name.
pub proof fn ratings_and_citations_are_kept(resp: GenerateContentResponse)
    ensures
        ({
            let m = response_extensions(resp);
            if resp.candidates@.len() == 0 {
                m.len() == 0 && parts_in(resp).len() == 0
            } else {
                let c = resp.candidates@[0];
                &&& match member(m, "gemini.safety_ratings"@) {
                    None => c.safety_ratings@.len() == 0,
                    Some(Tree::Array(items)) => {
                        &&& items.len() == c.safety_ratings@.len()
                        &&& items.len() > 0
                        &&& forall|i: int|
                            0 <= i < items.len() ==> #[trigger] items[i]
                                == c.safety_ratings@[i].tree()
                    },
                    _ => false,
                }
                &&& member(m, "gemini.citation_metadata"@) == (match c.citation_metadata {
                    Some(v) => Some(v@),
                    None => None,
                })
            }
        }),
{
    broadcast use {member_after_optional, member_after_set, member_of_nothing};

    reveal_strlit("gemini.safety_ratings");
    reveal_strlit("gemini.citation_metadata");
    assert("gemini.safety_ratings"@.len() == 21 && "gemini.citation_metadata"@.len() == 24);
}

/// A whole reply as a stream: announced under its identifier, model and the
/// time, and ended with its stop reason, sequence and usage.
pub proof fn whole_reply_is_framed(response: CanonicalResponse, now: u64)
    ensures
        ({
            let out = synthesis::response_events(response, now);
            let n = out.len() as int;
            &&& n >= 4
            &&& out[0] == Event::ResponseStart {
                id: response.id.0@,
                model: response.model@,
                created_at_unix: now,
            }
            &&& out[1] == Event::MessageStart { role: MessageRole::Assistant }
            &&& out.subrange(2, n - 2) == synthesis::blocks_events(
                crate::canonical::block_models(response.content@),
            )
            &&& match out[n - 2] {
                Event::MessageStop { stop_reason, stop_sequence } => {
                    &&& stop_reason == response.stop_reason@
                    &&& match (stop_sequence, response.stop_sequence) {
                        (Some(a), Some(b)) => a == b@,
                        (None, None) => true,
                        _ => false,
                    }
                },
                _ => false,
            }
            &&& match (out[n - 1], response.usage) {
                (Event::ResponseStop { usage: Some(c) }, Some(u)) => c == u@,
                (Event::ResponseStop { usage: None }, None) => true,
                _ => false,
            }
        }),
{
    let out = synthesis::response_events(response, now);
    assert(out.subrange(2, out.len() - 2) =~= synthesis::blocks_events(
        crate::canonical::block_models(response.content@),
    ));
}

/// Each block of a whole reply that has a form in a stream adds its events under
/// the next number; the others add nothing and take no number.
pub proof fn whole_block_adds_its_events(before: Seq<BlockModel>, block: BlockModel)
    requires
        synthesis::streamed_count(before) <= u32::MAX,
    ensures
        synthesis::blocks_events(Seq::empty()).len() == 0,
        synthesis::streamed_count(Seq::empty()) == 0,
        synthesis::streamed_count(before.push(block)) == synthesis::streamed_count(before) + (
        if block is Text || block is Reasoning || block is ToolCall {
            1int
        } else {
            0int
        }),
        ({
            let index = synthesis::streamed_count(before) as u32;
            let old_events = synthesis::blocks_events(before);
            let out = synthesis::blocks_events(before.push(block));
            match block {
                BlockModel::Text { text } => out == old_events + seq![
                    Event::ContentBlockStart { index, kind: ContentBlockKind::Text },
                    Event::TextDelta { index, text },
                    Event::ContentBlockStop { index },
                ],
                BlockModel::Reasoning { text } => out == old_events + seq![
                    Event::ContentBlockStart { index, kind: ContentBlockKind::Reasoning },
                    Event::ReasoningDelta { index, text },
                    Event::ContentBlockStop { index },
                ],
                BlockModel::ToolCall { id, name, arguments } => out == old_events + seq![
                    Event::ContentBlockStart { index, kind: ContentBlockKind::ToolCall },
                    Event::ToolCallStart { index, id, name },
                    Event::ToolCallArgumentsDelta {
                        index,
                        json_fragment: match arguments {
                            ArgumentsModel::Complete { value } => value.compact(),
                            ArgumentsModel::Streaming { data } => data,
                        },
                    },
                    Event::ToolCallStop { index },
                    Event::ContentBlockStop { index },
                ],
                _ => out == old_events,
            }
        }),
{
    assert(before.push(block).drop_last() =~= before);
    let old_events = synthesis::blocks_events(before);
    assert(old_events + Seq::<Event>::empty() =~= old_events);
}

/// A call keeps its own identifier, and takes the fresh one where it has none.
pub proof fn calls_keep_their_identifiers(own: Seq<char>, fresh: Seq<char>)
    ensures
        call_id(Some(own), fresh) == own,
        call_id(None, fresh) == fresh,
{
}

/// Parts fit where each that opens a block finds a number for it: a call always
/// does, and words do where no block of their kind is open.
pub proof fn every_block_of_parts_needs_a_number(
    at: Interleaving,
    parts: Seq<PartModel>,
    part: PartModel,
)
    ensures
        numbers_fit(at, Seq::empty()),
        numbers_fit(at, parts.push(part)) <==> {
            let before = after_parts(at, parts);
            let kind = if part.thought == Some(true) {
                DeltaKind::Reasoning
            } else {
                DeltaKind::Text
            };
            let opening = part.function_call is Some || (part.text is Some && !(before.open is Some
                && before.open->Some_0.0 == kind));
            numbers_fit(at, parts) && (opening ==> before.next < u32::MAX)
        },
{
    assert(parts.push(part).drop_last() =~= parts);
}

} // verus!
