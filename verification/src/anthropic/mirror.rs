//! A streamed message and the same message in one piece give the same events,
//! but for where the deltas are cut and what is said of usage.
use vstd::prelude::*;

use super::envelope::all_events;
use super::response::{
    block_events, block_start_events, blocks_events, delta_events, event_events, event_state,
    held_after, is_empty, nothing_held, reported, response_counts, response_events, usage_after,
    usage_events, Held,
};
use super::wire::{
    IncomingContentBlock, IncomingContentBlockDelta, IncomingContentBlockStart, IncomingEvent,
    IncomingMessageStart, IncomingMessagesResponse, IncomingUsage,
};
use crate::canonical::MessageRole;
use crate::json::opt_text;
use crate::stream::{anthropic_stop, no_counts, ContentBlockKind, Counts, Event, Stop};

verus! {

// ---------------------------------------------------------------------------
// Outlines
// ---------------------------------------------------------------------------

/// Whether an event is a piece of a block.
pub open spec fn is_delta(event: Event) -> bool {
    event is TextDelta || event is ReasoningDelta || event is ToolCallArgumentsDelta
}

/// An event without the text of a piece and without usage.
pub open spec fn bare(event: Event) -> Event {
    match event {
        Event::TextDelta { index, .. } => Event::TextDelta { index, text: seq![] },
        Event::ReasoningDelta { index, .. } => Event::ReasoningDelta { index, text: seq![] },
        Event::ToolCallArgumentsDelta { index, .. } => Event::ToolCallArgumentsDelta {
            index,
            json_fragment: seq![],
        },
        Event::ResponseStop { .. } => Event::ResponseStop { usage: None },
        _ => event,
    }
}

/// The bare events, where consecutive pieces of one block count as one piece
/// and reports of usage are left out.
pub open spec fn outline(out: Seq<Event>) -> Seq<Event>
    decreases out.len(),
{
    if out.len() == 0 {
        seq![]
    } else {
        let before = outline(out.drop_last());
        let last = bare(out.last());
        if last is UsageDelta || (is_delta(last) && before.len() > 0 && before.last() == last) {
            before
        } else {
            before.push(last)
        }
    }
}

proof fn lemma_outline_push(out: Seq<Event>, event: Event)
    ensures
        outline(out.push(event)) == (if event is UsageDelta || (is_delta(event) && outline(out).len()
            > 0 && outline(out).last() == bare(event)) {
            outline(out)
        } else {
            outline(out).push(bare(event))
        }),
{
    assert(out.push(event).drop_last() =~= out);
}

/// What begins with an event that is no piece joins on.
proof fn lemma_outline_concat(a: Seq<Event>, b: Seq<Event>)
    requires
        b.len() > 0,
        !is_delta(b[0]),
        !(b[0] is UsageDelta),
    ensures
        outline(b).len() > 0,
        outline(a + b) == outline(a) + outline(b),
    decreases b.len(),
{
    assert((a + b).drop_last() =~= a + b.drop_last());
    if b.len() == 1 {
        assert(a + b.drop_last() =~= a);
        assert(outline(b.drop_last()) =~= seq![]);
    } else {
        lemma_outline_concat(a, b.drop_last());
    }
    assert(outline(a + b) =~= outline(a) + outline(b));
}

proof fn lemma_outline_usage(a: Seq<Event>, usage: Option<IncomingUsage>)
    ensures
        outline(a + usage_events(usage)) == outline(a),
{
    match usage {
        Some(u) => {
            let event = usage_events(usage)[0];
            assert(a + usage_events(usage) =~= a.push(event));
            lemma_outline_push(a, event);
        },
        None => {
            assert(a + usage_events(usage) =~= a);
        },
    }
}

// ---------------------------------------------------------------------------
// Scripts
// ---------------------------------------------------------------------------

/// A message as it is streamed: its announcement and its blocks, each with its
/// start and its pieces.
pub struct Script {
    pub message: IncomingMessageStart,
    pub blocks: Seq<(IncomingContentBlockStart, Seq<IncomingContentBlockDelta>)>,
}

/// The upstream events of the pieces of a block.
pub open spec fn piece_script(
    index: u32,
    pieces: Seq<IncomingContentBlockDelta>,
) -> Seq<IncomingEvent> {
    Seq::new(
        pieces.len(),
        |i: int| IncomingEvent::ContentBlockDelta { index, delta: pieces[i] },
    )
}

/// The upstream events of a block.
pub open spec fn block_script(
    index: u32,
    start: IncomingContentBlockStart,
    pieces: Seq<IncomingContentBlockDelta>,
) -> Seq<IncomingEvent> {
    (seq![IncomingEvent::ContentBlockStart { index, content_block: start }] + piece_script(
        index,
        pieces,
    )).push(IncomingEvent::ContentBlockStop { index })
}

/// The upstream events of blocks, numbered by position.
pub open spec fn blocks_script(
    blocks: Seq<(IncomingContentBlockStart, Seq<IncomingContentBlockDelta>)>,
) -> Seq<IncomingEvent>
    decreases blocks.len(),
{
    if blocks.len() == 0 {
        seq![]
    } else {
        blocks_script(blocks.drop_last()) + block_script(
            (blocks.len() - 1) as u32,
            blocks.last().0,
            blocks.last().1,
        )
    }
}

impl Script {
    /// The upstream events of the message, up to its stop.
    pub open spec fn incoming(self) -> Seq<IncomingEvent> {
        seq![IncomingEvent::MessageStart { message: self.message }] + blocks_script(self.blocks)
    }

    /// Whether a complete response has the same identifier, model and blocks.
    pub open spec fn tells(self, response: IncomingMessagesResponse) -> bool {
        &&& self.message.id@ == response.id@
        &&& self.message.model@ == response.model@
        &&& self.blocks.len() == response.content@.len()
        &&& forall|i: int|
            0 <= i < self.blocks.len() ==> tells_block(
                (#[trigger] self.blocks[i]).0,
                self.blocks[i].1,
                response.content@[i],
            )
    }
}

/// Whether a streamed block says anything: its start or a piece does.
pub open spec fn says_something(
    start: IncomingContentBlockStart,
    pieces: Seq<IncomingContentBlockDelta>,
) -> bool
    decreases pieces.len(),
{
    if pieces.len() == 0 {
        match start {
            IncomingContentBlockStart::Text { text } => text@.len() > 0,
            IncomingContentBlockStart::Thinking { thinking } => thinking@.len() > 0,
            _ => false,
        }
    } else {
        !(pieces.last() is SignatureDelta) || says_something(start, pieces.drop_last())
    }
}

/// Whether a block of a complete response is the one that was streamed: of the
/// same kind, with pieces of that kind, which say something where the block
/// does. A signature may come with thinking. The input of a call comes in at
/// least one piece.
pub open spec fn tells_block(
    start: IncomingContentBlockStart,
    pieces: Seq<IncomingContentBlockDelta>,
    block: IncomingContentBlock,
) -> bool {
    match (start, block) {
        (IncomingContentBlockStart::Text { .. }, IncomingContentBlock::Text { text }) => {
            &&& forall|i: int| 0 <= i < pieces.len() ==> (#[trigger] pieces[i]) is TextDelta
            &&& says_something(start, pieces) == (text@.len() > 0)
        },
        (
            IncomingContentBlockStart::ToolUse { id, name },
            IncomingContentBlock::ToolUse { id: whole_id, name: whole_name, .. },
        ) => {
            &&& id@ == whole_id@
            &&& name@ == whole_name@
            &&& forall|i: int| 0 <= i < pieces.len() ==> (#[trigger] pieces[i]) is InputJsonDelta
            &&& pieces.len() > 0
        },
        (
            IncomingContentBlockStart::Thinking { .. },
            IncomingContentBlock::Thinking { thinking, .. },
        ) => {
            &&& forall|i: int|
                0 <= i < pieces.len() ==> (#[trigger] pieces[i]) is ThinkingDelta
                    || pieces[i] is SignatureDelta
            &&& says_something(start, pieces) == (thinking@.len() > 0)
        },
        (
            IncomingContentBlockStart::RedactedThinking { .. },
            IncomingContentBlock::RedactedThinking { .. },
        ) => pieces.len() == 0,
        _ => false,
    }
}

/// Whether an upstream event is neither an announcement nor a part of a block
/// nor the stop: a ping, or a report on the message as a whole.
pub open spec fn is_aside(event: IncomingEvent) -> bool {
    event is Ping || event is MessageDelta
}

/// Upstream events without the asides.
pub open spec fn without_asides(incoming: Seq<IncomingEvent>) -> Seq<IncomingEvent>
    decreases incoming.len(),
{
    if incoming.len() == 0 {
        seq![]
    } else {
        let before = without_asides(incoming.drop_last());
        if is_aside(incoming.last()) {
            before
        } else {
            before.push(incoming.last())
        }
    }
}

/// The last stop reason that upstream events report.
pub open spec fn last_reason(incoming: Seq<IncomingEvent>) -> Option<Seq<char>>
    decreases incoming.len(),
{
    if incoming.len() == 0 {
        None
    } else {
        match incoming.last() {
            IncomingEvent::MessageDelta { change, .. } if change.stop_reason is Some => opt_text(
                change.stop_reason,
            ),
            _ => last_reason(incoming.drop_last()),
        }
    }
}

/// The last stop sequence that upstream events report.
pub open spec fn last_sequence(incoming: Seq<IncomingEvent>) -> Option<Seq<char>>
    decreases incoming.len(),
{
    if incoming.len() == 0 {
        None
    } else {
        match incoming.last() {
            IncomingEvent::MessageDelta { change, .. } if change.stop_sequence is Some => opt_text(
                change.stop_sequence,
            ),
            _ => last_sequence(incoming.drop_last()),
        }
    }
}

/// The largest counts that upstream events report.
pub open spec fn merged_counts(incoming: Seq<IncomingEvent>) -> Counts
    decreases incoming.len(),
{
    if incoming.len() == 0 {
        no_counts()
    } else {
        usage_after(merged_counts(incoming.drop_last()), reported(incoming.last()))
    }
}

// ---------------------------------------------------------------------------
// The law
// ---------------------------------------------------------------------------

/// The canonical events of upstream events, from a state.
spec fn events_from(held: Held, incoming: Seq<IncomingEvent>) -> Seq<Event>
    decreases incoming.len(),
{
    if incoming.len() == 0 {
        seq![]
    } else {
        events_from(held, incoming.drop_last()) + event_events(
            held_after(held, incoming.drop_last()),
            incoming.last(),
        )
    }
}

proof fn lemma_from_nothing(incoming: Seq<IncomingEvent>)
    ensures
        all_events(incoming) == events_from(nothing_held(), incoming),
    decreases incoming.len(),
{
    if incoming.len() > 0 {
        lemma_from_nothing(incoming.drop_last());
    }
}

proof fn lemma_concat(held: Held, a: Seq<IncomingEvent>, b: Seq<IncomingEvent>)
    ensures
        held_after(held, a + b) == held_after(held_after(held, a), b),
        events_from(held, a + b) == events_from(held, a) + events_from(held_after(held, a), b),
    decreases b.len(),
{
    if b.len() == 0 {
        assert(a + b =~= a);
        assert(events_from(held, a) + events_from(held_after(held, a), b) =~= events_from(held, a));
    } else {
        assert((a + b).drop_last() =~= a + b.drop_last());
        lemma_concat(held, a, b.drop_last());
        assert(events_from(held, a + b) =~= events_from(held, a) + events_from(
            held_after(held, a),
            b,
        ));
    }
}

proof fn lemma_one(held: Held, event: IncomingEvent)
    ensures
        held_after(held, seq![event]) == event_state(held, event),
        events_from(held, seq![event]) == event_events(held, event),
{
    reveal_with_fuel(held_after, 2);
    reveal_with_fuel(events_from, 2);
    assert(seq![event].drop_last() =~= seq![]);
    assert(events_from(held, seq![event]) =~= event_events(held, event));
}

proof fn lemma_push(held: Held, a: Seq<IncomingEvent>, event: IncomingEvent)
    ensures
        held_after(held, a.push(event)) == event_state(held_after(held, a), event),
        events_from(held, a.push(event)) == events_from(held, a) + event_events(
            held_after(held, a),
            event,
        ),
{
    assert(a.push(event).drop_last() =~= a);
}

/// Whether the message has not stopped.
spec fn unstopped(incoming: Seq<IncomingEvent>) -> bool {
    forall|i: int| 0 <= i < incoming.len() ==> !((#[trigger] incoming[i]) is MessageStop)
}

proof fn lemma_unstopped_script(
    blocks: Seq<(IncomingContentBlockStart, Seq<IncomingContentBlockDelta>)>,
)
    ensures
        unstopped(blocks_script(blocks)),
    decreases blocks.len(),
{
    if blocks.len() > 0 {
        lemma_unstopped_script(blocks.drop_last());
    }
}

proof fn lemma_unstopped(incoming: Seq<IncomingEvent>)
    requires
        unstopped(without_asides(incoming)),
    ensures
        unstopped(incoming),
    decreases incoming.len(),
{
    if incoming.len() > 0 {
        let before = incoming.drop_last();
        let kept = without_asides(before);
        if !is_aside(incoming.last()) {
            assert forall|i: int| 0 <= i < kept.len() implies !((#[trigger] kept[i]) is MessageStop)
                by {
                assert(without_asides(incoming)[i] == kept[i]);
            }
            let all = without_asides(incoming);
            assert(!(all[all.len() - 1] is MessageStop));
        }
        lemma_unstopped(before);
        assert forall|i: int| 0 <= i < incoming.len() implies !((
        #[trigger] incoming[i]) is MessageStop) by {
            if i < before.len() {
                assert(before[i] == incoming[i]);
            }
        }
    }
}

proof fn lemma_outline_same(a: Seq<Event>, b: Seq<Event>, c: Seq<Event>)
    requires
        outline(a) == outline(b),
    ensures
        outline(a + c) == outline(b + c),
    decreases c.len(),
{
    if c.len() == 0 {
        assert(a + c =~= a);
        assert(b + c =~= b);
    } else {
        assert((a + c).drop_last() =~= a + c.drop_last());
        assert((b + c).drop_last() =~= b + c.drop_last());
        lemma_outline_same(a, b, c.drop_last());
    }
}

/// Up to the stop, asides change nothing but what the stop will say.
proof fn lemma_asides(held: Held, incoming: Seq<IncomingEvent>)
    requires
        unstopped(incoming),
    ensures
        held_after(held, incoming).open_tools == held_after(
            held,
            without_asides(incoming),
        ).open_tools,
        outline(events_from(held, incoming)) == outline(
            events_from(held, without_asides(incoming)),
        ),
    decreases incoming.len(),
{
    if incoming.len() > 0 {
        let before = incoming.drop_last();
        let last = incoming.last();
        assert(unstopped(before));
        assert(last == incoming[incoming.len() - 1]);
        lemma_asides(held, before);
        let a = events_from(held, before);
        let b = events_from(held, without_asides(before));
        let state = held_after(held, before);
        if last is Ping {
            assert(events_from(held, incoming) =~= a);
        } else if let IncomingEvent::MessageDelta { usage, .. } = last {
            lemma_outline_usage(a, usage);
        } else {
            lemma_push(held, without_asides(before), last);
            lemma_outline_same(a, b, event_events(state, last));
        }
    }
}

/// What the stop will say.
proof fn lemma_said_at_the_stop(incoming: Seq<IncomingEvent>)
    requires
        unstopped(incoming),
    ensures
        ({
            let held = held_after(nothing_held(), incoming);
            &&& held.stop_reason == (match last_reason(incoming) {
                Some(reason) => Some(anthropic_stop(reason)),
                None => None,
            })
            &&& held.stop_sequence == last_sequence(incoming)
            &&& held.usage == merged_counts(incoming)
        }),
    decreases incoming.len(),
{
    if incoming.len() > 0 {
        assert(unstopped(incoming.drop_last()));
        assert(incoming.last() == incoming[incoming.len() - 1]);
        lemma_said_at_the_stop(incoming.drop_last());
    }
}

/// The events of the pieces of a block.
spec fn pieces_events(index: u32, pieces: Seq<IncomingContentBlockDelta>) -> Seq<Event>
    decreases pieces.len(),
{
    if pieces.len() == 0 {
        seq![]
    } else {
        pieces_events(index, pieces.drop_last()) + delta_events(index, pieces.last())
    }
}

proof fn lemma_pieces(held: Held, index: u32, pieces: Seq<IncomingContentBlockDelta>)
    ensures
        held_after(held, piece_script(index, pieces)) == held,
        events_from(held, piece_script(index, pieces)) == pieces_events(index, pieces),
    decreases pieces.len(),
{
    let script = piece_script(index, pieces);
    if pieces.len() > 0 {
        assert(script.drop_last() =~= piece_script(index, pieces.drop_last()));
        lemma_pieces(held, index, pieces.drop_last());
    }
}

/// The piece that stands for all pieces of a block.
spec fn one_piece(index: u32, start: IncomingContentBlockStart) -> Event {
    match start {
        IncomingContentBlockStart::ToolUse { .. } => Event::ToolCallArgumentsDelta {
            index,
            json_fragment: seq![],
        },
        IncomingContentBlockStart::Thinking { .. } => Event::ReasoningDelta { index, text: seq![] },
        _ => Event::TextDelta { index, text: seq![] },
    }
}

/// The events that open a block, without its text.
spec fn opening(index: u32, start: IncomingContentBlockStart) -> Seq<Event> {
    match start {
        IncomingContentBlockStart::Text { .. } => seq![
            Event::ContentBlockStart { index, kind: ContentBlockKind::Text },
        ],
        IncomingContentBlockStart::ToolUse { id, name } => seq![
            Event::ContentBlockStart { index, kind: ContentBlockKind::ToolCall },
            Event::ToolCallStart { index, id: id@, name: name@ },
        ],
        IncomingContentBlockStart::Thinking { .. } => seq![
            Event::ContentBlockStart { index, kind: ContentBlockKind::Reasoning },
        ],
        IncomingContentBlockStart::RedactedThinking { .. } => seq![
            Event::ContentBlockStart { index, kind: ContentBlockKind::RedactedReasoning },
        ],
    }
}

proof fn lemma_outline_short(out: Seq<Event>)
    requires
        out.len() <= 2,
    ensures
        out.len() == 1 ==> outline(out) == (if out[0] is UsageDelta {
            Seq::<Event>::empty()
        } else {
            seq![bare(out[0])]
        }),
        out.len() == 2 && !(out[0] is UsageDelta) && !(out[1] is UsageDelta) && !(is_delta(out[1])
            && bare(out[0]) == bare(out[1])) ==> outline(out) == seq![bare(out[0]), bare(out[1])],
{
    reveal_with_fuel(outline, 3);
    if out.len() == 1 {
        assert(out.drop_last() =~= seq![]);
        assert(outline(out) =~= if out[0] is UsageDelta {
            Seq::<Event>::empty()
        } else {
            seq![bare(out[0])]
        });
    }
    if out.len() == 2 {
        assert(out.drop_last() =~= seq![out[0]]);
        assert(seq![out[0]].drop_last() =~= seq![]);
        if !(out[0] is UsageDelta) && !(out[1] is UsageDelta) && !(is_delta(out[1]) && bare(out[0])
            == bare(out[1])) {
            assert(outline(out) =~= seq![bare(out[0]), bare(out[1])]);
        }
    }
}

proof fn lemma_open_part(
    index: u32,
    start: IncomingContentBlockStart,
    pieces: Seq<IncomingContentBlockDelta>,
)
    requires
        forall|i: int|
            0 <= i < pieces.len() ==> (#[trigger] pieces[i]) is SignatureDelta || bare(
                delta_events(index, pieces[i])[0],
            ) == one_piece(index, start),
    ensures
        outline(block_start_events(index, start) + pieces_events(index, pieces)) == (
        if says_something(start, pieces) {
            opening(index, start).push(one_piece(index, start))
        } else {
            opening(index, start)
        }),
    decreases pieces.len(),
{
    let begun = block_start_events(index, start);
    if pieces.len() == 0 {
        assert(begun + pieces_events(index, pieces) =~= begun);
        lemma_outline_short(begun);
        assert(outline(begun) =~= if says_something(start, pieces) {
            opening(index, start).push(one_piece(index, start))
        } else {
            opening(index, start)
        });
    } else {
        let before = pieces.drop_last();
        let last = delta_events(index, pieces.last());
        assert(pieces.last() == pieces[pieces.len() - 1]);
        assert forall|i: int| 0 <= i < before.len() implies (#[trigger] before[i]) is SignatureDelta
            || bare(delta_events(index, before[i])[0]) == one_piece(index, start) by {
            assert(before[i] == pieces[i]);
        }
        lemma_open_part(index, start, before);
        let so_far = begun + pieces_events(index, before);
        if pieces.last() is SignatureDelta {
            assert(begun + pieces_events(index, pieces) =~= so_far);
        } else {
            assert(begun + pieces_events(index, pieces) =~= so_far.push(last[0]));
            lemma_outline_push(so_far, last[0]);
        }
    }
}

proof fn lemma_whole_block(index: u32, block: IncomingContentBlock)
    ensures
        outline(block_events(index, block)) == (match block {
            IncomingContentBlock::Text { text } => (if text@.len() == 0 {
                seq![Event::ContentBlockStart { index, kind: ContentBlockKind::Text }]
            } else {
                seq![
                    Event::ContentBlockStart { index, kind: ContentBlockKind::Text },
                    Event::TextDelta { index, text: seq![] },
                ]
            }).push(Event::ContentBlockStop { index }),
            IncomingContentBlock::ToolUse { id, name, .. } => seq![
                Event::ContentBlockStart { index, kind: ContentBlockKind::ToolCall },
                Event::ToolCallStart { index, id: id@, name: name@ },
                Event::ToolCallArgumentsDelta { index, json_fragment: seq![] },
                Event::ToolCallStop { index },
                Event::ContentBlockStop { index },
            ],
            IncomingContentBlock::Thinking { thinking, .. } => (if thinking@.len() == 0 {
                seq![Event::ContentBlockStart { index, kind: ContentBlockKind::Reasoning }]
            } else {
                seq![
                    Event::ContentBlockStart { index, kind: ContentBlockKind::Reasoning },
                    Event::ReasoningDelta { index, text: seq![] },
                ]
            }).push(Event::ContentBlockStop { index }),
            IncomingContentBlock::RedactedThinking { .. } => seq![
                Event::ContentBlockStart { index, kind: ContentBlockKind::RedactedReasoning },
                Event::ContentBlockStop { index },
            ],
        }),
{
    let out = block_events(index, block);
    let n = out.len() as int;
    lemma_outline_short(out.take(2));
    if n == 2 {
        assert(out.take(2) =~= out);
    } else {
        lemma_outline_push(out.take(2), out[2]);
        assert(out.take(3) =~= out.take(2).push(out[2]));
        if n == 3 {
            assert(out.take(3) =~= out);
        } else {
            lemma_outline_push(out.take(3), out[3]);
            assert(out.take(4) =~= out.take(3).push(out[3]));
            lemma_outline_push(out.take(4), out[4]);
            assert(out =~= out.take(4).push(out[4]));
        }
    }
}

proof fn lemma_block(
    held: Held,
    index: u32,
    start: IncomingContentBlockStart,
    pieces: Seq<IncomingContentBlockDelta>,
    block: IncomingContentBlock,
)
    requires
        held.open_tools == Set::<u32>::empty(),
        tells_block(start, pieces, block),
    ensures
        held_after(held, block_script(index, start, pieces)) == held,
        ({
            let out = events_from(held, block_script(index, start, pieces));
            &&& out.len() > 0
            &&& out[0] is ContentBlockStart
            &&& outline(out) == outline(block_events(index, block))
        }),
{
    let first = IncomingEvent::ContentBlockStart { index, content_block: start };
    let opened = event_state(held, first);
    let head = seq![first];
    let body = piece_script(index, pieces);
    lemma_one(held, first);
    lemma_pieces(opened, index, pieces);
    lemma_concat(held, head, body);
    let stop = IncomingEvent::ContentBlockStop { index };
    lemma_push(held, head + body, stop);
    assert(Set::<u32>::empty().insert(index).remove(index) =~= Set::<u32>::empty());
    assert(Set::<u32>::empty().remove(index) =~= Set::<u32>::empty());
    let so_far = block_start_events(index, start) + pieces_events(index, pieces);
    lemma_open_part(index, start, pieces);
    lemma_whole_block(index, block);
    let closing = event_events(opened, stop);
    let out = events_from(held, block_script(index, start, pieces));
    assert(out =~= so_far + closing);
    if start is ToolUse {
        assert(pieces[pieces.len() - 1] is InputJsonDelta);
        assert(out =~= so_far.push(closing[0]).push(closing[1]));
        lemma_outline_push(so_far, closing[0]);
        lemma_outline_push(so_far.push(closing[0]), closing[1]);
    } else {
        assert(out =~= so_far.push(closing[0]));
        lemma_outline_push(so_far, closing[0]);
    }
    assert(outline(out) =~= outline(block_events(index, block)));
}

proof fn lemma_blocks(
    held: Held,
    before: Seq<Event>,
    also: Seq<Event>,
    blocks: Seq<(IncomingContentBlockStart, Seq<IncomingContentBlockDelta>)>,
    whole: Seq<IncomingContentBlock>,
)
    requires
        held.open_tools == Set::<u32>::empty(),
        outline(before) == outline(also),
        blocks.len() == whole.len(),
        forall|i: int|
            0 <= i < blocks.len() ==> tells_block((#[trigger] blocks[i]).0, blocks[i].1, whole[i]),
    ensures
        held_after(held, blocks_script(blocks)) == held,
        outline(before + events_from(held, blocks_script(blocks))) == outline(
            also + blocks_events(whole),
        ),
    decreases blocks.len(),
{
    if blocks.len() == 0 {
        assert(before + events_from(held, blocks_script(blocks)) =~= before);
        assert(also + blocks_events(whole) =~= also);
    } else {
        let fewer = blocks.drop_last();
        let index = (blocks.len() - 1) as u32;
        let (start, pieces) = blocks.last();
        let block = whole.last();
        assert(blocks[blocks.len() - 1] == blocks.last());
        assert forall|i: int| 0 <= i < fewer.len() implies tells_block(
            (#[trigger] fewer[i]).0,
            fewer[i].1,
            whole.drop_last()[i],
        ) by {
            assert(fewer[i] == blocks[i]);
        }
        lemma_blocks(held, before, also, fewer, whole.drop_last());
        lemma_block(held, index, start, pieces, block);
        lemma_concat(held, blocks_script(fewer), block_script(index, start, pieces));
        let a = before + events_from(held, blocks_script(fewer));
        let b = also + blocks_events(whole.drop_last());
        let out = events_from(held, block_script(index, start, pieces));
        lemma_outline_concat(a, out);
        lemma_outline_concat(b, block_events(index, block));
        assert(before + events_from(held, blocks_script(blocks)) =~= a + out);
        assert(also + blocks_events(whole) =~= b + block_events(index, block));
    }
}

/// The events of a complete response mirror those of its stream: after joining
/// the pieces of each block and leaving out what is said of usage, they are the
/// same events with the same numbers, names and stop reason. Pings and reports
/// on the message may stand anywhere in the stream, in any number. The last
/// stop reason and the last stop sequence that are reported before the stop
/// count, and the stop of the response gives the largest counts reported.
pub proof fn complete_response_mirrors_its_stream(
    script: Script,
    before: Seq<IncomingEvent>,
    after: Seq<IncomingEvent>,
    response: IncomingMessagesResponse,
)
    requires
        without_asides(before) == script.incoming(),
        without_asides(after).len() == 0,
        script.tells(response),
        last_reason(before) == opt_text(response.stop_reason),
        last_sequence(before) == opt_text(response.stop_sequence),
    ensures
        outline(all_events(before.push(IncomingEvent::MessageStop) + after)) == outline(
            response_events(response),
        ),
        all_events(before.push(IncomingEvent::MessageStop)).last() == (Event::ResponseStop {
            usage: Some(merged_counts(before)),
        }),
{
    let first = IncomingEvent::MessageStart { message: script.message };
    let body = blocks_script(script.blocks);
    lemma_unstopped_script(script.blocks);
    assert(unstopped(seq![first] + body));
    lemma_unstopped(before);
    lemma_said_at_the_stop(before);
    lemma_asides(nothing_held(), before);
    let held = event_state(nothing_held(), first);
    lemma_one(nothing_held(), first);
    lemma_concat(nothing_held(), seq![first], body);
    let names = seq![
        Event::ResponseStart { id: response.id@, model: response.model@, created_at_unix: 0 },
        Event::MessageStart { role: MessageRole::Assistant },
    ];
    let counts = response_counts(response);
    let begun = if is_empty(counts) {
        names
    } else {
        names.push(Event::UsageDelta { usage: counts })
    };
    lemma_outline_push(names, Event::UsageDelta { usage: counts });
    lemma_outline_usage(names, script.message.usage);
    let head = event_events(nothing_held(), first);
    lemma_blocks(held, head, begun, script.blocks, response.content@);
    let b = begun + blocks_events(response.content@);
    let a = events_from(nothing_held(), before);
    assert(outline(a) == outline(b));
    let ended = held_after(nothing_held(), before);
    let last = event_events(ended, IncomingEvent::MessageStop);
    let stopped = before.push(IncomingEvent::MessageStop);
    lemma_push(nothing_held(), before, IncomingEvent::MessageStop);
    lemma_from_nothing(stopped);
    assert(all_events(stopped) =~= a.push(last[0]).push(last[1]));
    lemma_outline_push(a, last[0]);
    lemma_outline_push(a.push(last[0]), last[1]);
    let stop = Event::MessageStop {
        stop_reason: match response.stop_reason {
            Some(reason) => anthropic_stop(reason@),
            None => Stop::EndTurn,
        },
        stop_sequence: opt_text(response.stop_sequence),
    };
    assert(last[0] == stop);
    let end = response_events(response).last();
    assert(response_events(response) =~= b.push(stop).push(end));
    lemma_outline_push(b, stop);
    lemma_outline_push(b.push(stop), end);
    lemma_from_nothing(stopped + after);
    lemma_concat(nothing_held(), stopped, after);
    lemma_outline_after(all_events(stopped), held_after(nothing_held(), stopped), after);
}

/// Asides add nothing to an outline.
proof fn lemma_outline_after(out: Seq<Event>, held: Held, after: Seq<IncomingEvent>)
    requires
        without_asides(after).len() == 0,
    ensures
        outline(out + events_from(held, after)) == outline(out),
    decreases after.len(),
{
    if after.len() == 0 {
        assert(out + events_from(held, after) =~= out);
    } else {
        let fewer = after.drop_last();
        lemma_outline_after(out, held, fewer);
        let a = out + events_from(held, fewer);
        if let IncomingEvent::MessageDelta { usage, .. } = after.last() {
            lemma_outline_usage(a, usage);
            assert(out + events_from(held, after) =~= a + usage_events(usage));
        } else {
            assert(out + events_from(held, after) =~= a);
        }
    }
}

} // verus!
