//! What the events of Messages replies say, against the fields of the replies.
use vstd::prelude::*;

use super::response::{
    block_events, blocks_events, body_error, error_event, event_events, event_state, held_after,
    nothing_held, response_events, Held,
};
use super::wire::{
    IncomingContentBlock, IncomingContentBlockDelta, IncomingContentBlockStart, IncomingEvent,
    IncomingMessagesResponse, IncomingUsage,
};
use crate::canonical::MessageRole;
use crate::json::{parsed_bytes, Tree};
use crate::stream::{ContentBlockKind, Counts, Event, Stop};

verus! {

/// Whether counts are those of a report, each under its own name, with nothing
/// else reported.
pub open spec fn are_counts(counts: Counts, usage: IncomingUsage) -> bool {
    &&& counts.input_tokens == usage.input_tokens
    &&& counts.output_tokens == usage.output_tokens
    &&& counts.cache_creation_input_tokens == usage.cache_creation_input_tokens
    &&& counts.cache_read_input_tokens == usage.cache_read_input_tokens
    &&& counts.reasoning_tokens is None
    &&& !counts.estimated
    &&& counts.provider_raw is None
}

/// Whether a report has a count.
pub open spec fn reports_anything(usage: IncomingUsage) -> bool {
    usage.input_tokens is Some || usage.output_tokens is Some
        || usage.cache_creation_input_tokens is Some || usage.cache_read_input_tokens is Some
}

/// What the stop reason of a reply means.
pub open spec fn is_stop(stop: Stop, reason: Option<String>) -> bool {
    match reason {
        None => stop == Stop::EndTurn,
        Some(r) => if r@ == "end_turn"@ {
            stop == Stop::EndTurn
        } else if r@ == "max_tokens"@ {
            stop == Stop::MaxTokens
        } else if r@ == "stop_sequence"@ {
            stop == Stop::StopSequence
        } else if r@ == "tool_use"@ {
            stop == Stop::ToolUse
        } else {
            stop == Stop::Other(r@)
        },
    }
}

/// A whole reply is announced under its identifier and model, by the assistant,
/// and ends with its stop reason and sequence and with exactly the counts that
/// it reports, which are also announced at the start. A reply that reports
/// nothing ends without counts.
pub proof fn whole_reply_is_framed(response: IncomingMessagesResponse)
    ensures
        ({
            let out = response_events(response);
            let n = out.len() as int;
            let counted = response.usage is Some && reports_anything(response.usage->0);
            let head: int = if counted {
                3
            } else {
                2
            };
            &&& n >= head + 2
            &&& out[0] == Event::ResponseStart {
                id: response.id@,
                model: response.model@,
                created_at_unix: 0,
            }
            &&& out[1] == Event::MessageStart { role: MessageRole::Assistant }
            &&& counted ==> out[2] is UsageDelta && are_counts(
                out[2]->UsageDelta_usage,
                response.usage->0,
            )
            &&& out.subrange(head, n - 2) == blocks_events(response.content@)
            &&& match out[n - 2] {
                Event::MessageStop { stop_reason, stop_sequence } => {
                    &&& is_stop(stop_reason, response.stop_reason)
                    &&& match (stop_sequence, response.stop_sequence) {
                        (Some(a), Some(b)) => a == b@,
                        (None, None) => true,
                        _ => false,
                    }
                },
                _ => false,
            }
            &&& match out[n - 1] {
                Event::ResponseStop { usage: Some(counts) } => counted && are_counts(
                    counts,
                    response.usage->0,
                ),
                Event::ResponseStop { usage: None } => !counted,
                _ => false,
            }
        }),
{
    let out = response_events(response);
    let n = out.len() as int;
    let counted = response.usage is Some && reports_anything(response.usage->0);
    let head: int = if counted {
        3
    } else {
        2
    };
    assert(out.subrange(head, n - 2) =~= blocks_events(response.content@));
}

/// Each block of a whole reply adds its events, under its position: its start,
/// what it says if it says anything, and its stop. A call says its identifier,
/// its name and its whole input, and stops before its block.
pub proof fn whole_block_adds_its_events(
    before: Seq<IncomingContentBlock>,
    block: IncomingContentBlock,
)
    requires
        before.len() <= u32::MAX,
    ensures
        blocks_events(Seq::empty()).len() == 0,
        ({
            let index = before.len() as u32;
            let old_events = blocks_events(before);
            let out = blocks_events(before.push(block));
            let stop = Event::ContentBlockStop { index };
            match block {
                IncomingContentBlock::Text { text } => {
                    let start = Event::ContentBlockStart { index, kind: ContentBlockKind::Text };
                    if text@.len() == 0 {
                        out == old_events + seq![start, stop]
                    } else {
                        out == old_events + seq![
                            start,
                            Event::TextDelta { index, text: text@ },
                            stop,
                        ]
                    }
                },
                IncomingContentBlock::Thinking { thinking, .. } => {
                    let start = Event::ContentBlockStart {
                        index,
                        kind: ContentBlockKind::Reasoning,
                    };
                    if thinking@.len() == 0 {
                        out == old_events + seq![start, stop]
                    } else {
                        out == old_events + seq![
                            start,
                            Event::ReasoningDelta { index, text: thinking@ },
                            stop,
                        ]
                    }
                },
                IncomingContentBlock::ToolUse { id, name, input } => out == old_events + seq![
                    Event::ContentBlockStart { index, kind: ContentBlockKind::ToolCall },
                    Event::ToolCallStart { index, id: id@, name: name@ },
                    Event::ToolCallArgumentsDelta { index, json_fragment: input@.compact() },
                    Event::ToolCallStop { index },
                    stop,
                ],
                IncomingContentBlock::RedactedThinking { .. } => out == old_events + seq![
                    Event::ContentBlockStart { index, kind: ContentBlockKind::RedactedReasoning },
                    stop,
                ],
            }
        }),
{
    let index = before.len() as u32;
    assert(before.push(block).drop_last() =~= before);
    assert(blocks_events(before.push(block)) == blocks_events(before) + block_events(index, block));
    match block {
        IncomingContentBlock::Text { text } => {
            if text@.len() == 0 {
                assert(block_events(index, block) =~= seq![
                    Event::ContentBlockStart { index, kind: ContentBlockKind::Text },
                    Event::ContentBlockStop { index },
                ]);
            } else {
                assert(block_events(index, block) =~= seq![
                    Event::ContentBlockStart { index, kind: ContentBlockKind::Text },
                    Event::TextDelta { index, text: text@ },
                    Event::ContentBlockStop { index },
                ]);
            }
        },
        IncomingContentBlock::Thinking { thinking, .. } => {
            if thinking@.len() == 0 {
                assert(block_events(index, block) =~= seq![
                    Event::ContentBlockStart { index, kind: ContentBlockKind::Reasoning },
                    Event::ContentBlockStop { index },
                ]);
            } else {
                assert(block_events(index, block) =~= seq![
                    Event::ContentBlockStart { index, kind: ContentBlockKind::Reasoning },
                    Event::ReasoningDelta { index, text: thinking@ },
                    Event::ContentBlockStop { index },
                ]);
            }
        },
        _ => {},
    }
}

/// A body that carries an error is told as that error: its type, or else
/// `api_error`, and its message, or else `upstream error`.
pub proof fn error_body_is_told(body: Seq<u8>)
    ensures
        match (parsed_bytes(body), body_error(body)) {
            (Ok(value), Some(error)) => {
                let kind = match error.get("type"@) {
                    Some(Tree::Text(s)) => s,
                    _ => "api_error"@,
                };
                let message = match error.get("message"@) {
                    Some(Tree::Text(s)) => s,
                    _ => "upstream error"@,
                };
                &&& value.get("error"@) == Some(error)
                &&& error_event(error) == Event::Error {
                    message: "upstream "@ + kind + ": "@ + message,
                }
            },
            (Ok(value), None) => value.get("error"@) is None,
            (Err(_), error) => error is None,
        },
{
}

/// The counts that an upstream event reports.
pub open spec fn usage_in(event: IncomingEvent) -> Option<IncomingUsage> {
    match event {
        IncomingEvent::MessageStart { message } => message.usage,
        IncomingEvent::MessageDelta { usage, .. } => usage,
        _ => None,
    }
}

/// The events of the start of a message and of reports on it: the announcement
/// under its identifier and model, and the counts, if any.
pub proof fn announcements_are_told(held: Held, event: IncomingEvent)
    requires
        event is MessageStart || event is MessageDelta,
    ensures
        ({
            let out = event_events(held, event);
            let head: int = if event is MessageStart {
                2
            } else {
                0
            };
            &&& match event {
                IncomingEvent::MessageStart { message } => {
                    &&& out.len() >= 2
                    &&& out[0] == Event::ResponseStart {
                        id: message.id@,
                        model: message.model@,
                        created_at_unix: 0,
                    }
                    &&& out[1] == Event::MessageStart { role: MessageRole::Assistant }
                },
                _ => true,
            }
            &&& match usage_in(event) {
                Some(u) => {
                    &&& out.len() == head + 1
                    &&& out[head] is UsageDelta
                    &&& are_counts(out[head]->UsageDelta_usage, u)
                },
                None => out.len() == head,
            }
        }),
{
}

/// The events of the parts of a block: its start of its kind, with what the
/// start already says; each piece of its kind, whole; and its stop, after that
/// of its call if it holds one.
pub proof fn block_parts_are_told(held: Held, event: IncomingEvent)
    ensures
        ({
            let out = event_events(held, event);
            match event {
                IncomingEvent::ContentBlockStart { index, content_block } => match content_block {
                    IncomingContentBlockStart::Text { text } => {
                        &&& out[0] == Event::ContentBlockStart {
                            index,
                            kind: ContentBlockKind::Text,
                        }
                        &&& if text@.len() == 0 {
                            out.len() == 1
                        } else {
                            out.len() == 2 && out[1] == Event::TextDelta { index, text: text@ }
                        }
                    },
                    IncomingContentBlockStart::Thinking { thinking } => {
                        &&& out[0] == Event::ContentBlockStart {
                            index,
                            kind: ContentBlockKind::Reasoning,
                        }
                        &&& if thinking@.len() == 0 {
                            out.len() == 1
                        } else {
                            out.len() == 2 && out[1] == Event::ReasoningDelta {
                                index,
                                text: thinking@,
                            }
                        }
                    },
                    IncomingContentBlockStart::ToolUse { id, name } => out == seq![
                        Event::ContentBlockStart { index, kind: ContentBlockKind::ToolCall },
                        Event::ToolCallStart { index, id: id@, name: name@ },
                    ],
                    IncomingContentBlockStart::RedactedThinking { .. } => out == seq![
                        Event::ContentBlockStart {
                            index,
                            kind: ContentBlockKind::RedactedReasoning,
                        },
                    ],
                },
                IncomingEvent::ContentBlockDelta { index, delta } => match delta {
                    IncomingContentBlockDelta::TextDelta { text } => out == seq![
                        Event::TextDelta { index, text: text@ },
                    ],
                    IncomingContentBlockDelta::InputJsonDelta { partial_json } => out == seq![
                        Event::ToolCallArgumentsDelta { index, json_fragment: partial_json@ },
                    ],
                    IncomingContentBlockDelta::ThinkingDelta { thinking } => out == seq![
                        Event::ReasoningDelta { index, text: thinking@ },
                    ],
                    IncomingContentBlockDelta::SignatureDelta { .. } => out.len() == 0,
                },
                IncomingEvent::ContentBlockStop { index } => if held.open_tools.contains(index) {
                    out == seq![Event::ToolCallStop { index }, Event::ContentBlockStop { index }]
                } else {
                    out == seq![Event::ContentBlockStop { index }]
                },
                IncomingEvent::Ping => out.len() == 0,
                IncomingEvent::Error { error } => out == seq![
                    Event::Error { message: "upstream "@ + error.kind@ + ": "@ + error.message@ },
                ],
                _ => true,
            }
        }),
{
}

/// A block is known to hold a call from its start to its stop, and only then;
/// nothing is remembered beyond the stop of the message.
pub proof fn calls_are_remembered(held: Held, event: IncomingEvent, index: u32)
    ensures
        event_state(held, event).open_tools.contains(index) == (match event {
            IncomingEvent::ContentBlockStart { index: i, content_block } => (i == index
                && content_block is ToolUse) || held.open_tools.contains(index),
            IncomingEvent::ContentBlockStop { index: i } => i != index && held.open_tools.contains(
                index,
            ),
            IncomingEvent::MessageStop => false,
            _ => held.open_tools.contains(index),
        }),
{
}

/// The message stops with the stop reason and sequence that were reported last,
/// and the next message starts with nothing.
pub proof fn stop_tells_what_was_reported(held: Held, event: IncomingEvent)
    ensures
        match event {
            IncomingEvent::MessageDelta { change, .. } => {
                let out = event_events(event_state(held, event), IncomingEvent::MessageStop);
                &&& out.len() == 2
                &&& out[0] is MessageStop
                &&& change.stop_reason is Some ==> is_stop(
                    out[0]->stop_reason,
                    change.stop_reason,
                )
                &&& change.stop_reason is None ==> out[0]->stop_reason == event_events(
                    held,
                    IncomingEvent::MessageStop,
                )[0]->stop_reason
                &&& match change.stop_sequence {
                    Some(sequence) => out[0]->stop_sequence == Some(sequence@),
                    None => out[0]->stop_sequence == event_events(
                        held,
                        IncomingEvent::MessageStop,
                    )[0]->stop_sequence,
                }
                &&& out[1] is ResponseStop
            },
            IncomingEvent::MessageStop => {
                let out = event_events(event_state(held, event), IncomingEvent::MessageStop);
                &&& out[0] == Event::MessageStop {
                    stop_reason: Stop::EndTurn,
                    stop_sequence: None,
                }
                &&& match out[1] {
                    Event::ResponseStop { usage: Some(c) } => {
                        &&& c.input_tokens is None
                        &&& c.output_tokens is None
                        &&& c.cache_creation_input_tokens is None
                        &&& c.cache_read_input_tokens is None
                    },
                    _ => false,
                }
            },
            _ => {
                let a = event_events(event_state(held, event), IncomingEvent::MessageStop);
                let b = event_events(held, IncomingEvent::MessageStop);
                a[0] == b[0]
            },
        },
{
}

/// The counts with which the message would stop.
pub open spec fn final_counts(held: Held) -> Option<Counts> {
    match event_events(held, IncomingEvent::MessageStop)[1] {
        Event::ResponseStop { usage } => usage,
        _ => None,
    }
}

/// Whether `total` is the largest of the counts that `pick` finds in the
/// reports of events: it is one of them, none is above it, and it is missing
/// only where all are.
pub open spec fn is_largest(
    total: Option<u32>,
    incoming: Seq<IncomingEvent>,
    pick: spec_fn(IncomingUsage) -> Option<u32>,
) -> bool {
    match total {
        Some(n) => {
            &&& exists|i: int|
                0 <= i < incoming.len() && usage_in(#[trigger] incoming[i]) is Some && pick(
                    usage_in(incoming[i])->0,
                ) == Some(n)
            &&& forall|i: int|
                0 <= i < incoming.len() && usage_in(#[trigger] incoming[i]) is Some ==> match pick(
                    usage_in(incoming[i])->0,
                ) {
                    Some(m) => m <= n,
                    None => true,
                }
        },
        None => forall|i: int|
            0 <= i < incoming.len() && usage_in(#[trigger] incoming[i]) is Some ==> pick(
                usage_in(incoming[i])->0,
            ) is None,
    }
}

proof fn lemma_largest(
    total: Option<u32>,
    after: Option<u32>,
    incoming: Seq<IncomingEvent>,
    event: IncomingEvent,
    pick: spec_fn(IncomingUsage) -> Option<u32>,
)
    requires
        is_largest(total, incoming, pick),
        after == (match usage_in(event) {
            Some(u) => super::response::larger(total, pick(u)),
            None => total,
        }),
    ensures
        is_largest(after, incoming.push(event), pick),
{
    let all = incoming.push(event);
    assert(all[incoming.len() as int] == event);
    assert forall|i: int|
        0 <= i < all.len() && usage_in(#[trigger] all[i]) is Some implies match (
        pick(usage_in(all[i])->0),
        after,
    ) {
        (Some(m), Some(n)) => m <= n,
        (Some(_), None) => false,
        _ => true,
    } by {
        if i < incoming.len() {
            assert(all[i] == incoming[i]);
        }
    }
    if after is Some {
        if after == total {
            let i = choose|i: int|
                0 <= i < incoming.len() && usage_in(#[trigger] incoming[i]) is Some && pick(
                    usage_in(incoming[i])->0,
                ) == total;
            assert(all[i] == incoming[i]);
        }
    }
}

/// The stop of a message reports, under each name, the largest count that any
/// event of the message reported under that name.
pub proof fn final_counts_are_the_largest_reported(incoming: Seq<IncomingEvent>)
    requires
        forall|i: int| 0 <= i < incoming.len() ==> !((#[trigger] incoming[i]) is MessageStop),
    ensures
        ({
            let counts = final_counts(held_after(nothing_held(), incoming));
            &&& counts is Some
            &&& is_largest(counts->0.input_tokens, incoming, |u: IncomingUsage| u.input_tokens)
            &&& is_largest(counts->0.output_tokens, incoming, |u: IncomingUsage| u.output_tokens)
            &&& is_largest(
                counts->0.cache_creation_input_tokens,
                incoming,
                |u: IncomingUsage| u.cache_creation_input_tokens,
            )
            &&& is_largest(
                counts->0.cache_read_input_tokens,
                incoming,
                |u: IncomingUsage| u.cache_read_input_tokens,
            )
        }),
    decreases incoming.len(),
{
    if incoming.len() > 0 {
        let before = incoming.drop_last();
        let event = incoming.last();
        assert forall|i: int| 0 <= i < before.len() implies !((
        #[trigger] before[i]) is MessageStop) by {
            assert(before[i] == incoming[i]);
        }
        assert(incoming[incoming.len() - 1] == event);
        final_counts_are_the_largest_reported(before);
        assert(before.push(event) =~= incoming);
        let a = held_after(nothing_held(), before).usage;
        let b = held_after(nothing_held(), incoming).usage;
        lemma_largest(
            a.input_tokens,
            b.input_tokens,
            before,
            event,
            |u: IncomingUsage| u.input_tokens,
        );
        lemma_largest(
            a.output_tokens,
            b.output_tokens,
            before,
            event,
            |u: IncomingUsage| u.output_tokens,
        );
        lemma_largest(
            a.cache_creation_input_tokens,
            b.cache_creation_input_tokens,
            before,
            event,
            |u: IncomingUsage| u.cache_creation_input_tokens,
        );
        lemma_largest(
            a.cache_read_input_tokens,
            b.cache_read_input_tokens,
            before,
            event,
            |u: IncomingUsage| u.cache_read_input_tokens,
        );
    }
}

/// Where one event alone reports usage, the message stops with exactly its
/// counts, each under its own name.
pub proof fn only_report_is_the_final_one(incoming: Seq<IncomingEvent>, k: int)
    requires
        forall|i: int| 0 <= i < incoming.len() ==> !((#[trigger] incoming[i]) is MessageStop),
        0 <= k < incoming.len(),
        usage_in(incoming[k]) is Some,
        forall|i: int|
            0 <= i < incoming.len() && i != k ==> usage_in(#[trigger] incoming[i]) is None,
    ensures
        ({
            let counts = final_counts(held_after(nothing_held(), incoming));
            let u = usage_in(incoming[k])->0;
            &&& counts is Some
            &&& counts->0.input_tokens == u.input_tokens
            &&& counts->0.output_tokens == u.output_tokens
            &&& counts->0.cache_creation_input_tokens == u.cache_creation_input_tokens
            &&& counts->0.cache_read_input_tokens == u.cache_read_input_tokens
        }),
{
    final_counts_are_the_largest_reported(incoming);
    let c = final_counts(held_after(nothing_held(), incoming))->0;
    lemma_only(c.input_tokens, incoming, k, |u: IncomingUsage| u.input_tokens);
    lemma_only(c.output_tokens, incoming, k, |u: IncomingUsage| u.output_tokens);
    lemma_only(
        c.cache_creation_input_tokens,
        incoming,
        k,
        |u: IncomingUsage| u.cache_creation_input_tokens,
    );
    lemma_only(
        c.cache_read_input_tokens,
        incoming,
        k,
        |u: IncomingUsage| u.cache_read_input_tokens,
    );
}

proof fn lemma_only(
    total: Option<u32>,
    incoming: Seq<IncomingEvent>,
    k: int,
    pick: spec_fn(IncomingUsage) -> Option<u32>,
)
    requires
        is_largest(total, incoming, pick),
        0 <= k < incoming.len(),
        usage_in(incoming[k]) is Some,
        forall|i: int|
            0 <= i < incoming.len() && i != k ==> usage_in(#[trigger] incoming[i]) is None,
    ensures
        total == pick(usage_in(incoming[k])->0),
{
}

} // verus!
