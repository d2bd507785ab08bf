//! Turns responses of the Messages API into canonical events.
//!
//! Signatures of thinking blocks have no canonical event and are dropped.
use vstd::prelude::*;
use vstd::string::*;

use super::wire::{
    IncomingContentBlock, IncomingContentBlockDelta, IncomingContentBlockStart, IncomingEvent,
    IncomingMessagesResponse, IncomingUsage,
};
use crate::canonical::{MessageRole, ToolCallId};
use crate::json::{opt_text, parsed_bytes, str_member_or, Json, Tree};
use crate::lifecycle::{
    all_ended, between_blocks, lemma_observe_concat, lemma_observe_push, nothing_seen, observe_all,
};
use crate::stream::{
    anthropic_stop, emit, events, no_counts, no_events, ContentBlockKind, Counts, Event, ResponseId,
    Stop, StopReason, StreamEvent, Usage,
};
use crate::text::{all_white, is_blank};

verus! {

/// What the parser holds until the message stops.
#[derive(Debug)]
pub struct StreamState {
    pub stop_reason: Option<StopReason>,
    pub stop_sequence: Option<String>,
    pub accumulated_usage: Usage,
    /// The blocks that are open and hold a tool call.
    pub open_tools: Vec<u32>,
}

// ---------------------------------------------------------------------------
// Model
// ---------------------------------------------------------------------------

/// The model of `StreamState`.
#[verifier::ext_equal]
pub struct Held {
    pub stop_reason: Option<Stop>,
    pub stop_sequence: Option<Seq<char>>,
    pub usage: Counts,
    pub open_tools: Set<u32>,
}

/// The state before the first event, and after the last.
pub open spec fn nothing_held() -> Held {
    Held {
        stop_reason: None,
        stop_sequence: None,
        usage: no_counts(),
        open_tools: Set::empty(),
    }
}

impl StreamState {
    pub open spec fn view(&self) -> Held {
        Held {
            stop_reason: match self.stop_reason {
                Some(reason) => Some(reason@),
                None => None,
            },
            stop_sequence: opt_text(self.stop_sequence),
            usage: self.accumulated_usage@,
            open_tools: self.open_tools@.to_set(),
        }
    }
}

/// The canonical form of token counts.
pub open spec fn mapped(usage: IncomingUsage) -> Counts {
    Counts {
        input_tokens: usage.input_tokens,
        output_tokens: usage.output_tokens,
        cache_creation_input_tokens: usage.cache_creation_input_tokens,
        cache_read_input_tokens: usage.cache_read_input_tokens,
        ..no_counts()
    }
}

/// The larger of two counts. A count that is not reported does not matter.
pub open spec fn larger(a: Option<u32>, b: Option<u32>) -> Option<u32> {
    match (a, b) {
        (_, None) => a,
        (None, Some(y)) => Some(y),
        (Some(x), Some(y)) => if x < y {
            Some(y)
        } else {
            Some(x)
        },
    }
}

/// The larger counts of the two.
pub open spec fn merged(acc: Counts, more: Counts) -> Counts {
    Counts {
        input_tokens: larger(acc.input_tokens, more.input_tokens),
        output_tokens: larger(acc.output_tokens, more.output_tokens),
        cache_creation_input_tokens: larger(
            acc.cache_creation_input_tokens,
            more.cache_creation_input_tokens,
        ),
        cache_read_input_tokens: larger(acc.cache_read_input_tokens, more.cache_read_input_tokens),
        ..acc
    }
}

/// Whether nothing is reported.
pub open spec fn is_empty(counts: Counts) -> bool {
    counts.input_tokens is None && counts.output_tokens is None
        && counts.cache_creation_input_tokens is None && counts.cache_read_input_tokens is None
}

pub open spec fn usage_events(usage: Option<IncomingUsage>) -> Seq<Event> {
    match usage {
        Some(u) => seq![Event::UsageDelta { usage: mapped(u) }],
        None => seq![],
    }
}

pub open spec fn usage_after(acc: Counts, usage: Option<IncomingUsage>) -> Counts {
    match usage {
        Some(u) => merged(acc, mapped(u)),
        None => acc,
    }
}

pub open spec fn block_start_events(index: u32, block: IncomingContentBlockStart) -> Seq<Event> {
    match block {
        IncomingContentBlockStart::Text { text } => {
            let start = seq![Event::ContentBlockStart { index, kind: ContentBlockKind::Text }];
            if text@.len() == 0 {
                start
            } else {
                start.push(Event::TextDelta { index, text: text@ })
            }
        },
        IncomingContentBlockStart::ToolUse { id, name } => seq![
            Event::ContentBlockStart { index, kind: ContentBlockKind::ToolCall },
            Event::ToolCallStart { index, id: id@, name: name@ },
        ],
        IncomingContentBlockStart::Thinking { thinking } => {
            let start = seq![Event::ContentBlockStart { index, kind: ContentBlockKind::Reasoning }];
            if thinking@.len() == 0 {
                start
            } else {
                start.push(Event::ReasoningDelta { index, text: thinking@ })
            }
        },
        IncomingContentBlockStart::RedactedThinking { .. } => seq![
            Event::ContentBlockStart { index, kind: ContentBlockKind::RedactedReasoning },
        ],
    }
}

pub open spec fn delta_events(index: u32, delta: IncomingContentBlockDelta) -> Seq<Event> {
    match delta {
        IncomingContentBlockDelta::TextDelta { text } => seq![
            Event::TextDelta { index, text: text@ },
        ],
        IncomingContentBlockDelta::InputJsonDelta { partial_json } => seq![
            Event::ToolCallArgumentsDelta { index, json_fragment: partial_json@ },
        ],
        IncomingContentBlockDelta::ThinkingDelta { thinking } => seq![
            Event::ReasoningDelta { index, text: thinking@ },
        ],
        IncomingContentBlockDelta::SignatureDelta { .. } => seq![],
    }
}

/// The message of an upstream error.
pub open spec fn error_message(kind: Seq<char>, message: Seq<char>) -> Seq<char> {
    "upstream "@ + kind + ": "@ + message
}

/// The canonical events of one upstream event.
pub open spec fn event_events(held: Held, event: IncomingEvent) -> Seq<Event> {
    match event {
        IncomingEvent::MessageStart { message } => seq![
            Event::ResponseStart { id: message.id@, model: message.model@, created_at_unix: 0 },
            Event::MessageStart { role: MessageRole::Assistant },
        ] + usage_events(message.usage),
        IncomingEvent::ContentBlockStart { index, content_block } => block_start_events(
            index,
            content_block,
        ),
        IncomingEvent::ContentBlockDelta { index, delta } => delta_events(index, delta),
        IncomingEvent::ContentBlockStop { index } => if held.open_tools.contains(index) {
            seq![Event::ToolCallStop { index }, Event::ContentBlockStop { index }]
        } else {
            seq![Event::ContentBlockStop { index }]
        },
        IncomingEvent::MessageDelta { usage, .. } => usage_events(usage),
        IncomingEvent::MessageStop => seq![
            Event::MessageStop {
                stop_reason: match held.stop_reason {
                    Some(reason) => reason,
                    None => Stop::EndTurn,
                },
                stop_sequence: held.stop_sequence,
            },
            Event::ResponseStop { usage: Some(held.usage) },
        ],
        IncomingEvent::Ping => seq![],
        IncomingEvent::Error { error } => seq![
            Event::Error { message: error_message(error.kind@, error.message@) },
        ],
    }
}

/// The state after one upstream event.
pub open spec fn event_state(held: Held, event: IncomingEvent) -> Held {
    match event {
        IncomingEvent::MessageStart { message } => Held {
            usage: usage_after(held.usage, message.usage),
            ..held
        },
        IncomingEvent::MessageDelta { change, usage } => Held {
            stop_reason: match change.stop_reason {
                Some(reason) => Some(anthropic_stop(reason@)),
                None => held.stop_reason,
            },
            stop_sequence: match change.stop_sequence {
                Some(sequence) => Some(sequence@),
                None => held.stop_sequence,
            },
            usage: usage_after(held.usage, usage),
            ..held
        },
        IncomingEvent::ContentBlockStart { index, content_block } => if content_block is ToolUse {
            Held { open_tools: held.open_tools.insert(index), ..held }
        } else {
            held
        },
        IncomingEvent::ContentBlockStop { index } => Held {
            open_tools: held.open_tools.remove(index),
            ..held
        },
        IncomingEvent::MessageStop => nothing_held(),
        _ => held,
    }
}

/// One block of a complete response, opened and closed.
pub open spec fn block_events(index: u32, block: IncomingContentBlock) -> Seq<Event> {
    match block {
        IncomingContentBlock::Text { text } => (if text@.len() == 0 {
            seq![Event::ContentBlockStart { index, kind: ContentBlockKind::Text }]
        } else {
            seq![
                Event::ContentBlockStart { index, kind: ContentBlockKind::Text },
                Event::TextDelta { index, text: text@ },
            ]
        }).push(Event::ContentBlockStop { index }),
        IncomingContentBlock::ToolUse { id, name, input } => seq![
            Event::ContentBlockStart { index, kind: ContentBlockKind::ToolCall },
            Event::ToolCallStart { index, id: id@, name: name@ },
            Event::ToolCallArgumentsDelta { index, json_fragment: input@.compact() },
            Event::ToolCallStop { index },
            Event::ContentBlockStop { index },
        ],
        IncomingContentBlock::Thinking { thinking, .. } => (if thinking@.len() == 0 {
            seq![Event::ContentBlockStart { index, kind: ContentBlockKind::Reasoning }]
        } else {
            seq![
                Event::ContentBlockStart { index, kind: ContentBlockKind::Reasoning },
                Event::ReasoningDelta { index, text: thinking@ },
            ]
        }).push(Event::ContentBlockStop { index }),
        IncomingContentBlock::RedactedThinking { .. } => seq![
            Event::ContentBlockStart { index, kind: ContentBlockKind::RedactedReasoning },
            Event::ContentBlockStop { index },
        ],
    }
}

/// The blocks of a complete response, numbered by position.
pub open spec fn blocks_events(blocks: Seq<IncomingContentBlock>) -> Seq<Event>
    decreases blocks.len(),
{
    if blocks.len() == 0 {
        seq![]
    } else {
        blocks_events(blocks.drop_last()) + block_events(
            (blocks.len() - 1) as u32,
            blocks.last(),
        )
    }
}

/// The counts of a complete response.
pub open spec fn response_counts(response: IncomingMessagesResponse) -> Counts {
    match response.usage {
        Some(u) => mapped(u),
        None => no_counts(),
    }
}

/// The events of a complete response.
pub open spec fn response_events(response: IncomingMessagesResponse) -> Seq<Event> {
    let counts = response_counts(response);
    let head = seq![
        Event::ResponseStart { id: response.id@, model: response.model@, created_at_unix: 0 },
        Event::MessageStart { role: MessageRole::Assistant },
    ];
    let begun = if is_empty(counts) {
        head
    } else {
        head.push(Event::UsageDelta { usage: counts })
    };
    (begun + blocks_events(response.content@)).push(
        Event::MessageStop {
            stop_reason: match response.stop_reason {
                Some(reason) => anthropic_stop(reason@),
                None => Stop::EndTurn,
            },
            stop_sequence: opt_text(response.stop_sequence),
        },
    ).push(
        Event::ResponseStop {
            usage: if is_empty(counts) {
                None
            } else {
                Some(counts)
            },
        },
    )
}

/// The error that a body carries, if it is a JSON value that has one.
pub open spec fn body_error(body: Seq<u8>) -> Option<Tree> {
    match parsed_bytes(body) {
        Ok(value) => value.get("error"@),
        Err(_) => None,
    }
}

/// The event of a body that carries an error.
pub open spec fn error_event(error: Tree) -> Event {
    Event::Error {
        message: error_message(
            str_member_or(error, "type"@, "api_error"@),
            str_member_or(error, "message"@, "upstream error"@),
        ),
    }
}

// ---------------------------------------------------------------------------
// Operations
// ---------------------------------------------------------------------------

impl Default for StreamState {
    fn default() -> (state: StreamState)
        ensures
            state@ == nothing_held(),
    {
        let open_tools: Vec<u32> = Vec::new();
        assert(open_tools@.to_set() =~= Set::<u32>::empty());
        StreamState {
            stop_reason: None,
            stop_sequence: None,
            accumulated_usage: Usage::default(),
            open_tools,
        }
    }
}

/// The canonical form of token counts.
pub fn map_usage(u: &IncomingUsage) -> (usage: Usage)
    ensures
        usage@ == mapped(*u),
{
    Usage {
        input_tokens: u.input_tokens,
        output_tokens: u.output_tokens,
        cache_creation_input_tokens: u.cache_creation_input_tokens,
        cache_read_input_tokens: u.cache_read_input_tokens,
        reasoning_tokens: None,
        estimated: false,
        provider_raw: None,
    }
}

fn max_count(a: Option<u32>, b: Option<u32>) -> (count: Option<u32>)
    ensures
        count == larger(a, b),
{
    match b {
        None => a,
        Some(y) => match a {
            None => Some(y),
            Some(x) => if x < y {
                Some(y)
            } else {
                Some(x)
            },
        },
    }
}

/// Raises the counts of `acc` to those of `more`.
pub fn merge_usage(acc: &mut Usage, more: &Usage)
    ensures
        final(acc)@ == merged(old(acc)@, more@),
{
    acc.input_tokens = max_count(acc.input_tokens, more.input_tokens);
    acc.output_tokens = max_count(acc.output_tokens, more.output_tokens);
    acc.cache_creation_input_tokens = max_count(
        acc.cache_creation_input_tokens,
        more.cache_creation_input_tokens,
    );
    acc.cache_read_input_tokens = max_count(
        acc.cache_read_input_tokens,
        more.cache_read_input_tokens,
    );
}

/// Whether nothing is reported.
pub fn is_usage_empty(u: &Usage) -> (empty: bool)
    ensures
        empty == is_empty(u@),
{
    u.input_tokens.is_none() && u.output_tokens.is_none() && u.cache_creation_input_tokens.is_none()
        && u.cache_read_input_tokens.is_none()
}

fn upstream_message(kind: &str, message: &str) -> (text: String)
    ensures
        text@ == error_message(kind@, message@),
{
    let mut text = "upstream ".to_owned();
    text.append(kind);
    text.append(": ");
    text.append(message);
    text
}

impl StreamState {
    fn report(&mut self, usage: Option<IncomingUsage>, out: &mut Vec<StreamEvent>)
        ensures
            final(self)@ == (Held { usage: usage_after(old(self)@.usage, usage), ..old(self)@ }),
            events(final(out)@) == events(old(out)@) + usage_events(usage),
    {
        let ghost before = events(out@);
        if let Some(u) = usage {
            let mapped_usage = map_usage(&u);
            merge_usage(&mut self.accumulated_usage, &mapped_usage);
            emit(out, StreamEvent::UsageDelta { usage: mapped_usage });
        }
        assert(events(out@) =~= before + usage_events(usage));
    }

    /// Remembers that a block holds a tool call.
    fn open_tool(&mut self, index: u32)
        ensures
            final(self)@ == (Held {
                open_tools: old(self)@.open_tools.insert(index),
                ..old(self)@
            }),
    {
        let ghost before = self.open_tools@;
        self.open_tools.push(index);
        proof {
            lemma_push_contains(before, index);
            assert(self.open_tools@.to_set() =~= before.to_set().insert(index));
        }
    }

    /// Forgets a block, and tells whether it held a tool call.
    fn close_tool(&mut self, index: u32) -> (found: bool)
        ensures
            found == old(self)@.open_tools.contains(index),
            final(self)@ == (Held {
                open_tools: old(self)@.open_tools.remove(index),
                ..old(self)@
            }),
    {
        let ghost before = self.open_tools@;
        let mut kept: Vec<u32> = Vec::new();
        let mut found = false;
        let mut i: usize = 0;
        while i < self.open_tools.len()
            invariant
                i <= self.open_tools@.len(),
                self.open_tools@ == before,
                self@ == old(self)@,
                found == before.take(i as int).contains(index),
                forall|k: u32|
                    #[trigger] kept@.contains(k) == (k != index && before.take(i as int).contains(
                        k,
                    )),
            decreases self.open_tools.len() - i,
        {
            let ghost shorter = kept@;
            let k = self.open_tools[i];
            if k == index {
                found = true;
            } else {
                kept.push(k);
            }
            proof {
                let taken = before.take(i as int);
                assert(before.take(i + 1) =~= taken.push(k));
                lemma_push_contains(taken, k);
                lemma_push_contains(shorter, k);
            }
            i = i + 1;
        }
        assert(before.take(i as int) =~= before);
        assert(kept@.to_set() =~= before.to_set().remove(index));
        self.open_tools = kept;
        found
    }
}

proof fn lemma_push_contains(s: Seq<u32>, k: u32)
    ensures
        forall|x: u32| #[trigger] s.push(k).contains(x) == (s.contains(x) || x == k),
{
    assert(s.push(k).last() == k);
    assert forall|x: u32| s.contains(x) implies #[trigger] s.push(k).contains(x) by {
        let j = choose|j: int| 0 <= j < s.len() && s[j] == x;
        assert(s.push(k)[j] == x);
    }
}

fn push_block_start(out: &mut Vec<StreamEvent>, index: u32, block: IncomingContentBlockStart)
    ensures
        events(final(out)@) == events(old(out)@) + block_start_events(index, block),
{
    let ghost before = events(out@);
    match block {
        IncomingContentBlockStart::Text { text } => {
            emit(out, StreamEvent::ContentBlockStart { index, kind: ContentBlockKind::Text });
            if !text.as_str().is_empty() {
                emit(out, StreamEvent::TextDelta { index, text });
            }
        },
        IncomingContentBlockStart::ToolUse { id, name } => {
            emit(out, StreamEvent::ContentBlockStart { index, kind: ContentBlockKind::ToolCall });
            emit(out, StreamEvent::ToolCallStart { index, id: ToolCallId(id), name });
        },
        IncomingContentBlockStart::Thinking { thinking } => {
            emit(out, StreamEvent::ContentBlockStart { index, kind: ContentBlockKind::Reasoning });
            if !thinking.as_str().is_empty() {
                emit(out, StreamEvent::ReasoningDelta { index, text: thinking });
            }
        },
        IncomingContentBlockStart::RedactedThinking { .. } => {
            emit(
                out,
                StreamEvent::ContentBlockStart { index, kind: ContentBlockKind::RedactedReasoning },
            );
        },
    }
    assert(events(out@) =~= before + block_start_events(index, block));
}

fn push_delta(out: &mut Vec<StreamEvent>, index: u32, delta: IncomingContentBlockDelta)
    ensures
        events(final(out)@) == events(old(out)@) + delta_events(index, delta),
{
    let ghost before = events(out@);
    match delta {
        IncomingContentBlockDelta::TextDelta { text } => {
            emit(out, StreamEvent::TextDelta { index, text });
        },
        IncomingContentBlockDelta::InputJsonDelta { partial_json } => {
            emit(
                out,
                StreamEvent::ToolCallArgumentsDelta { index, json_fragment: partial_json },
            );
        },
        IncomingContentBlockDelta::ThinkingDelta { thinking } => {
            emit(out, StreamEvent::ReasoningDelta { index, text: thinking });
        },
        IncomingContentBlockDelta::SignatureDelta { .. } => {},
    }
    assert(events(out@) =~= before + delta_events(index, delta));
}

/// Translates one upstream event.
pub fn translate_event(event: IncomingEvent, state: &mut StreamState) -> (out: Vec<StreamEvent>)
    ensures
        events(out@) == event_events(old(state)@, event),
        final(state)@ == event_state(old(state)@, event),
{
    let mut out = no_events();
    let ghost held = state@;
    match event {
        IncomingEvent::MessageStart { message } => {
            emit(
                &mut out,
                StreamEvent::ResponseStart {
                    id: ResponseId(message.id),
                    model: message.model,
                    created_at_unix: 0,
                },
            );
            emit(&mut out, StreamEvent::MessageStart { role: MessageRole::Assistant });
            state.report(message.usage, &mut out);
        },
        IncomingEvent::ContentBlockStart { index, content_block } => {
            if let IncomingContentBlockStart::ToolUse { .. } = &content_block {
                state.open_tool(index);
            }
            push_block_start(&mut out, index, content_block);
        },
        IncomingEvent::ContentBlockDelta { index, delta } => {
            push_delta(&mut out, index, delta);
        },
        IncomingEvent::ContentBlockStop { index } => {
            if state.close_tool(index) {
                emit(&mut out, StreamEvent::ToolCallStop { index });
            }
            emit(&mut out, StreamEvent::ContentBlockStop { index });
        },
        IncomingEvent::MessageDelta { change, usage } => {
            if let Some(reason) = change.stop_reason {
                state.stop_reason = Some(StopReason::from_anthropic(reason.as_str()));
            }
            if let Some(sequence) = change.stop_sequence {
                state.stop_sequence = Some(sequence);
            }
            state.report(usage, &mut out);
        },
        IncomingEvent::MessageStop => {
            let stop_reason = match state.stop_reason.take() {
                Some(reason) => reason,
                None => StopReason::EndTurn,
            };
            let stop_sequence = state.stop_sequence.take();
            emit(&mut out, StreamEvent::MessageStop { stop_reason, stop_sequence });
            let mut usage = Usage::default();
            std::mem::swap(&mut usage, &mut state.accumulated_usage);
            emit(&mut out, StreamEvent::ResponseStop { usage: Some(usage) });
            state.open_tools = Vec::new();
            assert(state.open_tools@.to_set() =~= Set::<u32>::empty());
        },
        IncomingEvent::Ping => {},
        IncomingEvent::Error { error } => {
            let message = upstream_message(error.kind.as_str(), error.message.as_str());
            emit(&mut out, StreamEvent::Error { message });
        },
    }
    assert(events(out@) =~= event_events(held, event));
    out
}

/// Handles one server-sent event, given its data and what the data was decoded
/// to: an event or the decoder's message. Blank data brings nothing, whatever
/// it was decoded to.
pub fn parse_chunk(
    data: &str,
    decoded: Result<IncomingEvent, String>,
    state: &mut StreamState,
) -> (result: Result<Vec<StreamEvent>, String>)
    ensures
        if all_white(data@) {
            &&& final(state)@ == old(state)@
            &&& match result {
                Ok(out) => events(out@).len() == 0,
                Err(_) => false,
            }
        } else {
            match decoded {
                Ok(event) => {
                    &&& final(state)@ == event_state(old(state)@, event)
                    &&& match result {
                        Ok(out) => events(out@) == event_events(old(state)@, event),
                        Err(_) => false,
                    }
                },
                Err(message) => {
                    &&& final(state)@ == old(state)@
                    &&& match result {
                        Ok(_) => false,
                        Err(text) => text@ == "anthropic SSE json parse: "@ + message@,
                    }
                },
            }
        },
{
    if is_blank(data) {
        return Ok(no_events());
    }
    match decoded {
        Ok(event) => Ok(translate_event(event, state)),
        Err(message) => {
            let mut text = "anthropic SSE json parse: ".to_owned();
            text.append(message.as_str());
            Err(text)
        },
    }
}

fn push_block(out: &mut Vec<StreamEvent>, index: u32, block: &IncomingContentBlock)
    ensures
        events(final(out)@) == events(old(out)@) + block_events(index, *block),
{
    let ghost before = events(out@);
    match block {
        IncomingContentBlock::Text { text } => {
            emit(out, StreamEvent::ContentBlockStart { index, kind: ContentBlockKind::Text });
            if !text.as_str().is_empty() {
                emit(out, StreamEvent::TextDelta { index, text: text.clone() });
            }
            emit(out, StreamEvent::ContentBlockStop { index });
        },
        IncomingContentBlock::ToolUse { id, name, input } => {
            emit(out, StreamEvent::ContentBlockStart { index, kind: ContentBlockKind::ToolCall });
            emit(
                out,
                StreamEvent::ToolCallStart {
                    index,
                    id: ToolCallId::from_provider(id.as_str()),
                    name: name.clone(),
                },
            );
            emit(
                out,
                StreamEvent::ToolCallArgumentsDelta { index, json_fragment: input.to_text() },
            );
            emit(out, StreamEvent::ToolCallStop { index });
            emit(out, StreamEvent::ContentBlockStop { index });
        },
        IncomingContentBlock::Thinking { thinking, .. } => {
            emit(out, StreamEvent::ContentBlockStart { index, kind: ContentBlockKind::Reasoning });
            if !thinking.as_str().is_empty() {
                emit(out, StreamEvent::ReasoningDelta { index, text: thinking.clone() });
            }
            emit(out, StreamEvent::ContentBlockStop { index });
        },
        IncomingContentBlock::RedactedThinking { .. } => {
            emit(
                out,
                StreamEvent::ContentBlockStart { index, kind: ContentBlockKind::RedactedReasoning },
            );
            emit(out, StreamEvent::ContentBlockStop { index });
        },
    }
    assert(events(out@) =~= before + block_events(index, *block));
}

/// Translates a complete response.
pub fn translate_response(response: IncomingMessagesResponse) -> (out: Vec<StreamEvent>)
    ensures
        events(out@) == response_events(response),
{
    let mut out = no_events();
    let usage = match &response.usage {
        Some(u) => map_usage(u),
        None => Usage::default(),
    };
    let reported = match &response.usage {
        Some(u) => map_usage(u),
        None => Usage::default(),
    };
    let empty = is_usage_empty(&usage);
    let IncomingMessagesResponse {
        id,
        model,
        content,
        stop_reason: reason,
        stop_sequence,
        usage: _,
    } = response;
    emit(
        &mut out,
        StreamEvent::ResponseStart { id: ResponseId(id), model, created_at_unix: 0 },
    );
    emit(&mut out, StreamEvent::MessageStart { role: MessageRole::Assistant });
    if !empty {
        emit(&mut out, StreamEvent::UsageDelta { usage: reported });
    }
    let ghost begun = events(out@);
    let mut i: usize = 0;
    assert(begun + blocks_events(content@.take(0)) =~= begun);
    while i < content.len()
        invariant
            i <= content@.len(),
            events(out@) == begun + blocks_events(content@.take(i as int)),
        decreases content.len() - i,
    {
        let index: u32 = #[verifier::truncate] (i as u32);
        push_block(&mut out, index, &content[i]);
        i = i + 1;
        proof {
            assert(content@.take(i as int).drop_last() =~= content@.take(i - 1));
            assert(events(out@) =~= begun + blocks_events(content@.take(i as int)));
        }
    }
    assert(content@.take(i as int) =~= content@);
    let stop_reason = match reason {
        Some(text) => StopReason::from_anthropic(text.as_str()),
        None => StopReason::EndTurn,
    };
    emit(&mut out, StreamEvent::MessageStop { stop_reason, stop_sequence });
    let last = if empty {
        None
    } else {
        Some(usage)
    };
    emit(&mut out, StreamEvent::ResponseStop { usage: last });
    assert(events(out@) =~= response_events(response));
    out
}

/// Handles the body of a complete response, given what it was decoded to: a
/// response or the decoder's message. A body that carries an error is
/// reported as one, whatever it was decoded to.
pub fn parse_unary_inner(
    body: &[u8],
    decoded: Result<IncomingMessagesResponse, String>,
) -> (result: Result<Vec<StreamEvent>, String>)
    ensures
        match body_error(body@) {
            Some(error) => match result {
                Ok(out) => events(out@) == seq![error_event(error)],
                Err(_) => false,
            },
            None => match (decoded, result) {
                (Ok(response), Ok(out)) => events(out@) == response_events(response),
                (Err(message), Err(text)) => text@ == "anthropic unary json parse: "@ + message@,
                _ => false,
            },
        },
{
    if let Ok(value) = Json::parse_bytes(body) {
        if let Some(error) = value.get("error") {
            let kind = error.str_member_or("type", "api_error");
            let message = error.str_member_or("message", "upstream error");
            let mut out = no_events();
            emit(
                &mut out,
                StreamEvent::Error { message: upstream_message(kind.as_str(), message.as_str()) },
            );
            assert(events(out@) =~= seq![error_event(error@)]);
            return Ok(out);
        }
    }
    match decoded {
        Ok(response) => Ok(translate_response(response)),
        Err(message) => {
            let mut text = "anthropic unary json parse: ".to_owned();
            text.append(message.as_str());
            Err(text)
        },
    }
}

// ---------------------------------------------------------------------------
// Laws
// ---------------------------------------------------------------------------

/// Whether `b` is reported and at least `a`, wherever `a` is reported.
pub open spec fn covers(b: Option<u32>, a: Option<u32>) -> bool {
    a is Some ==> b is Some && b->0 >= a->0
}

/// Merged counts are never below either of the two, a count is reported if
/// and only if one of the two reports it, and merging the same counts again
/// changes nothing.
pub proof fn merging_takes_the_maximum(acc: Counts, more: Counts)
    ensures
        covers(merged(acc, more).input_tokens, acc.input_tokens),
        covers(merged(acc, more).input_tokens, more.input_tokens),
        covers(merged(acc, more).output_tokens, acc.output_tokens),
        covers(merged(acc, more).output_tokens, more.output_tokens),
        covers(merged(acc, more).cache_creation_input_tokens, acc.cache_creation_input_tokens),
        covers(merged(acc, more).cache_creation_input_tokens, more.cache_creation_input_tokens),
        covers(merged(acc, more).cache_read_input_tokens, acc.cache_read_input_tokens),
        covers(merged(acc, more).cache_read_input_tokens, more.cache_read_input_tokens),
        is_empty(merged(acc, more)) == (is_empty(acc) && is_empty(more)),
        merged(merged(acc, more), more) == merged(acc, more),
{
}

proof fn lemma_block(index: u32, block: IncomingContentBlock)
    ensures
        observe_all(Some(between_blocks()), block_events(index, block)) == Some(between_blocks()),
{
    let out = block_events(index, block);
    let n = out.len() as int;
    reveal_with_fuel(observe_all, 6);
    assert(out.drop_last() =~= out.take(n - 1));
    assert(out.take(n - 1).drop_last() =~= out.take(n - 2));
    if n >= 3 {
        assert(out.take(n - 2).drop_last() =~= out.take(n - 3));
    }
    if n >= 5 {
        assert(out.take(n - 3).drop_last() =~= out.take(n - 4));
        assert(out.take(n - 4).drop_last() =~= out.take(n - 5));
    }
    let open = Set::<u32>::empty().insert(index);
    assert(open.remove(index) =~= Set::<u32>::empty());
}

proof fn lemma_blocks(blocks: Seq<IncomingContentBlock>)
    ensures
        observe_all(Some(between_blocks()), blocks_events(blocks)) == Some(between_blocks()),
    decreases blocks.len(),
{
    if blocks.len() > 0 {
        let before = blocks.drop_last();
        let index = (blocks.len() - 1) as u32;
        lemma_blocks(before);
        lemma_block(index, blocks.last());
        lemma_observe_concat(
            Some(between_blocks()),
            blocks_events(before),
            block_events(index, blocks.last()),
        );
    }
}

/// A complete response is translated to a complete envelope.
pub proof fn response_is_a_complete_envelope(response: IncomingMessagesResponse)
    ensures
        observe_all(Some(nothing_seen()), response_events(response)) == Some(all_ended()),
{
    let counts = response_counts(response);
    let head = seq![
        Event::ResponseStart { id: response.id@, model: response.model@, created_at_unix: 0 },
        Event::MessageStart { role: MessageRole::Assistant },
    ];
    reveal_with_fuel(observe_all, 3);
    assert(head.drop_last() =~= head.take(1));
    assert(head.take(1).drop_last() =~= head.take(0));
    lemma_observe_push(Some(nothing_seen()), head, Event::UsageDelta { usage: counts });
    let begun = if is_empty(counts) {
        head
    } else {
        head.push(Event::UsageDelta { usage: counts })
    };
    assert(observe_all(Some(nothing_seen()), begun) == Some(between_blocks()));
    lemma_blocks(response.content@);
    lemma_observe_concat(Some(nothing_seen()), begun, blocks_events(response.content@));
    let body = begun + blocks_events(response.content@);
    let stop = Event::MessageStop {
        stop_reason: match response.stop_reason {
            Some(reason) => anthropic_stop(reason@),
            None => Stop::EndTurn,
        },
        stop_sequence: opt_text(response.stop_sequence),
    };
    lemma_observe_push(Some(nothing_seen()), body, stop);
    lemma_observe_push(
        Some(nothing_seen()),
        body.push(stop),
        Event::ResponseStop {
            usage: if is_empty(counts) {
                None
            } else {
                Some(counts)
            },
        },
    );
}

/// Whether `all` covers every count that `some` reports.
pub open spec fn covers_counts(all: Counts, some: Counts) -> bool {
    &&& covers(all.input_tokens, some.input_tokens)
    &&& covers(all.output_tokens, some.output_tokens)
    &&& covers(all.cache_creation_input_tokens, some.cache_creation_input_tokens)
    &&& covers(all.cache_read_input_tokens, some.cache_read_input_tokens)
}

/// The counts that an upstream event reports.
pub open spec fn reported(event: IncomingEvent) -> Option<IncomingUsage> {
    match event {
        IncomingEvent::MessageStart { message } => message.usage,
        IncomingEvent::MessageDelta { usage, .. } => usage,
        _ => None,
    }
}

/// The state after upstream events.
pub open spec fn held_after(held: Held, incoming: Seq<IncomingEvent>) -> Held
    decreases incoming.len(),
{
    if incoming.len() == 0 {
        held
    } else {
        event_state(held_after(held, incoming.drop_last()), incoming.last())
    }
}

/// Up to the end of the message, whatever comes before, the counts that its
/// end will report cover those of every event so far.
pub proof fn final_counts_cover_every_report(held: Held, incoming: Seq<IncomingEvent>, i: int)
    requires
        forall|k: int| 0 <= k < incoming.len() ==> !((#[trigger] incoming[k]) is MessageStop),
        0 <= i < incoming.len(),
    ensures
        reported(incoming[i]) is Some ==> covers_counts(
            held_after(held, incoming).usage,
            mapped(reported(incoming[i])->0),
        ),
    decreases incoming.len(),
{
    let before = incoming.drop_last();
    assert(!(incoming[incoming.len() - 1] is MessageStop));
    if i < before.len() {
        assert forall|k: int| 0 <= k < before.len() implies !(
        (#[trigger] before[k]) is MessageStop) by {
            assert(before[k] == incoming[k]);
        }
        final_counts_cover_every_report(held, before, i);
        assert(before[i] == incoming[i]);
    }
}

} // verus!
