//! Turns DeepSeek responses into canonical events: reasoning and text deltas
//! share one stream, and tool calls get block numbers behind them.
use vstd::prelude::*;
use vstd::string::*;

use super::usage::{map_usage, mapped};
use crate::canonical::{MessageRole, ToolCallId};
use crate::json::{
    array_member, parsed_bytes, parsed_text, str_member, str_member_or, trees, u32_member,
    u64_member, Json, Tree,
};
use crate::oai_chat_wire::interleaved_reasoning::{
    idle, DeltaKind, Interleaving, ReasoningInterleaver,
};
use crate::openai_compatible::parse_stream::{function_member, function_member_or};
use crate::openai_compatible::parse_unary;
use crate::openai_compatible::parse_unary::{response_fits, translated};
use crate::stream::{
    emit, events, no_events, openai_stop, ContentBlockKind, Counts, Event, ResponseId,
    StopReason, StreamError, StreamEvent,
};
use crate::text::same_text;

verus! {

/// What the parser remembers between events. An open tool block is the number
/// that the upstream gave the call, and the number of its block.
pub struct StreamState {
    pub emitted_response_start: bool,
    pub emitted_message_start: bool,
    pub interleaver: ReasoningInterleaver,
    pub open_tool_blocks: Vec<(u32, u32)>,
    pub response_id: String,
    pub response_model: String,
    pub completed: bool,
}

// ---------------------------------------------------------------------------
// Model
// ---------------------------------------------------------------------------

/// The model of `StreamState`.
#[verifier::ext_equal]
pub struct MixState {
    pub response_start: bool,
    pub message_start: bool,
    pub mix: Interleaving,
    pub tools: Seq<(u32, u32)>,
    pub id: Seq<char>,
    pub model: Seq<char>,
    pub completed: bool,
}

/// A parser state together with the events emitted so far.
#[verifier::ext_equal]
pub struct Run {
    pub state: MixState,
    pub out: Seq<Event>,
}

impl StreamState {
    pub open spec fn view(&self) -> MixState {
        MixState {
            response_start: self.emitted_response_start,
            message_start: self.emitted_message_start,
            mix: self.interleaver@,
            tools: self.open_tool_blocks@,
            id: self.response_id@,
            model: self.response_model@,
            completed: self.completed,
        }
    }
}

/// The state before the first event.
pub open spec fn initial_state() -> MixState {
    MixState {
        response_start: false,
        message_start: false,
        mix: idle(),
        tools: seq![],
        id: seq![],
        model: seq![],
        completed: false,
    }
}

/// A run from `state` that has emitted nothing yet.
pub open spec fn fresh(state: MixState) -> Run {
    Run { state, out: seq![] }
}

/// The run of a parser and the events that it has collected.
pub open spec fn run_of(parser: StreamState, out: Seq<StreamEvent>) -> Run {
    Run { state: parser@, out: events(out) }
}

/// The number of block numbers in use.
pub open spec fn numbered(state: MixState) -> nat {
    state.mix.next as nat + state.tools.len()
}

/// The tool blocks are in ascending order, and below the next number.
pub open spec fn well_formed(state: MixState) -> bool {
    &&& forall|i: int, j: int|
        0 <= i < j < state.tools.len() ==> (#[trigger] state.tools[i]).1 < (
        #[trigger] state.tools[j]).1
    &&& forall|i: int|
        0 <= i < state.tools.len() ==> (#[trigger] state.tools[i]).1 < numbered(state)
}

/// The position of the open block of an upstream call; the number of open
/// blocks if it has none.
pub open spec fn tool_position(tools: Seq<(u32, u32)>, call: u32, from: int) -> int
    decreases tools.len() - from,
{
    if from < 0 || from >= tools.len() {
        tools.len() as int
    } else if tools[from].0 == call {
        from
    } else {
        tool_position(tools, call, from + 1)
    }
}

impl Run {
    pub open spec fn emit(self, event: Event) -> Run {
        Run { out: self.out.push(event), ..self }
    }

    /// The response is announced once.
    pub open spec fn respond(self, id: Seq<char>, model: Seq<char>, created: u64) -> Run {
        if self.state.response_start {
            self
        } else {
            Run { state: MixState { response_start: true, id, model, ..self.state }, ..self }.emit(
                Event::ResponseStart { id, model, created_at_unix: created },
            )
        }
    }

    /// The message is announced once.
    pub open spec fn start_message(self) -> Run {
        if self.state.message_start {
            self
        } else {
            Run { state: MixState { message_start: true, ..self.state }, ..self }.emit(
                Event::MessageStart { role: MessageRole::Assistant },
            )
        }
    }

    /// A text or reasoning delta goes through the interleaver.
    pub open spec fn mixed(self, kind: DeltaKind, text: Option<Seq<char>>) -> Run {
        match text {
            Some(text) => if text.len() > 0 {
                let begun = self.start_message();
                Run {
                    state: MixState { mix: begun.state.mix.pushed(kind, text), ..begun.state },
                    out: begun.out + begun.state.mix.push_events(kind, text),
                }
            } else {
                self
            },
            None => self,
        }
    }

    /// The interleaver's block is closed.
    pub open spec fn flush(self) -> Run {
        Run {
            state: MixState { mix: self.state.mix.flushed(), ..self.state },
            out: self.out + self.state.mix.flush_events(),
        }
    }

    /// The tool block of an upstream call is open.
    pub open spec fn open_tool(self, call: u32) -> Run {
        if tool_position(self.state.tools, call, 0) < self.state.tools.len() {
            self
        } else {
            let index = numbered(self.state) as u32;
            Run {
                state: MixState { tools: self.state.tools.push((call, index)), ..self.state },
                ..self
            }.emit(Event::ContentBlockStart { index, kind: ContentBlockKind::ToolCall })
        }
    }

    /// The block of an upstream call.
    pub open spec fn block_of(self, call: u32) -> u32 {
        self.state.tools[tool_position(self.state.tools, call, 0)].1
    }

    /// One tool call delta.
    pub open spec fn call(self, call: Tree) -> Run {
        let number = call_number(call);
        let opened = self.open_tool(number);
        let index = opened.block_of(number);
        let started = match str_member(call, "id"@) {
            Some(id) => opened.emit(
                Event::ToolCallStart { index, id, name: function_member_or(call, "name"@, ""@) },
            ),
            None => opened,
        };
        match function_member(call, "arguments"@) {
            Some(text) => if text.len() > 0 {
                started.emit(Event::ToolCallArgumentsDelta { index, json_fragment: text })
            } else {
                started
            },
            None => started,
        }
    }

    pub open spec fn each_call(self, calls: Seq<Tree>) -> Run
        decreases calls.len(),
    {
        if calls.len() == 0 {
            self
        } else {
            self.each_call(calls.drop_last()).call(calls.last())
        }
    }

    /// A delta: its role, its reasoning, its text, then its tool calls.
    pub open spec fn delta(self, delta: Tree) -> Run {
        let begun = if str_member(delta, "role"@) is Some {
            self.start_message()
        } else {
            self
        };
        let said = begun.mixed(
            DeltaKind::Reasoning,
            str_member(delta, "reasoning_content"@),
        ).mixed(DeltaKind::Text, str_member(delta, "content"@));
        match array_member(delta, "tool_calls"@) {
            Some(calls) => said.start_message().flush().each_call(calls),
            None => said,
        }
    }

    /// Every tool block is closed, in ascending order.
    pub open spec fn close_tools(self) -> Run {
        Run {
            state: MixState { tools: seq![], ..self.state },
            out: self.out + tool_stops(self.state.tools),
        }
    }

    /// A finish reason closes every block and ends the message.
    pub open spec fn finish(self, choice: Tree) -> Run {
        match str_member(choice, "finish_reason"@) {
            Some(reason) => if reason.len() > 0 {
                let closed = self.flush().close_tools().emit(
                    Event::MessageStop { stop_reason: openai_stop(reason), stop_sequence: None },
                );
                Run { state: MixState { completed: true, ..closed.state }, ..closed }
            } else {
                self
            },
            None => self,
        }
    }

    pub open spec fn choice(self, choice: Tree) -> Run {
        (match choice.get("delta"@) {
            Some(delta) => self.delta(delta),
            None => self,
        }).finish(choice)
    }

    pub open spec fn each_choice(self, choices: Seq<Tree>) -> Run
        decreases choices.len(),
    {
        if choices.len() == 0 {
            self
        } else {
            self.each_choice(choices.drop_last()).choice(choices.last())
        }
    }

    pub open spec fn usage(self, chunk: Tree) -> Run {
        match chunk.get("usage"@) {
            Some(raw) => if raw == Tree::Null {
                self
            } else {
                self.emit(Event::UsageDelta { usage: mapped(raw) })
            },
            None => self,
        }
    }

    /// One chunk of the stream.
    pub open spec fn chunk(self, chunk: Tree) -> Run {
        match chunk.get("error"@) {
            Some(error) => self.emit(
                Event::Error { message: str_member_or(error, "message"@, "upstream error"@) },
            ),
            None => {
                let begun = self.respond(
                    str_member_or(chunk, "id"@, "unknown"@),
                    str_member_or(chunk, "model"@, "unknown"@),
                    match u64_member(chunk, "created"@) {
                        Some(n) => n,
                        None => 0,
                    },
                );
                (match array_member(chunk, "choices"@) {
                    Some(choices) => begun.each_choice(choices),
                    None => begun,
                }).usage(chunk)
            },
        }
    }

    /// The end-of-stream sentinel.
    pub open spec fn done(self) -> Run {
        let closed = self.flush().close_tools().emit(Event::ResponseStop { usage: None });
        Run { state: MixState { completed: true, ..closed.state }, ..closed }
    }
}

/// The events that close tool blocks.
pub open spec fn tool_stops(tools: Seq<(u32, u32)>) -> Seq<Event>
    decreases tools.len(),
{
    if tools.len() == 0 {
        seq![]
    } else {
        tool_stops(tools.drop_last()).push(Event::ToolCallStop { index: tools.last().1 }).push(
            Event::ContentBlockStop { index: tools.last().1 },
        )
    }
}

/// The upstream number of a tool call.
pub open spec fn call_number(call: Tree) -> u32 {
    match u32_member(call, "index"@) {
        Some(n) => n,
        None => 0,
    }
}

pub open spec fn is_said(text: Option<Seq<char>>) -> nat {
    match text {
        Some(text) => if text.len() > 0 {
            1
        } else {
            0
        },
        None => 0,
    }
}

/// How many blocks a delta can open: one for its reasoning, one for its text,
/// and one for each tool call.
pub open spec fn delta_blocks(delta: Tree) -> nat {
    is_said(str_member(delta, "reasoning_content"@)) + is_said(str_member(delta, "content"@)) + (
    match array_member(delta, "tool_calls"@) {
        Some(calls) => calls.len(),
        None => 0,
    })
}

pub open spec fn choice_blocks(choice: Tree) -> nat {
    match choice.get("delta"@) {
        Some(delta) => delta_blocks(delta),
        None => 0,
    }
}

/// How many blocks the choices can open.
pub open spec fn choices_blocks(choices: Seq<Tree>) -> nat
    decreases choices.len(),
{
    if choices.len() == 0 {
        0
    } else {
        choices_blocks(choices.drop_last()) + choice_blocks(choices.last())
    }
}

pub open spec fn chunk_blocks(chunk: Tree) -> nat {
    match array_member(chunk, "choices"@) {
        Some(choices) => choices_blocks(choices),
        None => 0,
    }
}

/// Whether the blocks that a chunk can open have representable numbers. An
/// error opens none.
pub open spec fn chunk_fits(state: MixState, chunk: Tree) -> bool {
    chunk.get("error"@) is Some || numbered(state) + chunk_blocks(chunk) <= u32::MAX
}

// ---------------------------------------------------------------------------
// Lemmas
// ---------------------------------------------------------------------------

proof fn lemma_tool_position(tools: Seq<(u32, u32)>, call: u32, from: int)
    requires
        0 <= from <= tools.len(),
    ensures
        from <= tool_position(tools, call, from) <= tools.len(),
        tool_position(tools, call, from) < tools.len() ==> tools[tool_position(
            tools,
            call,
            from,
        )].0 == call,
        forall|i: int|
            from <= i < tool_position(tools, call, from) ==> (#[trigger] tools[i]).0 != call,
    decreases tools.len() - from,
{
    if from < tools.len() && tools[from].0 != call {
        lemma_tool_position(tools, call, from + 1);
    }
}

proof fn lemma_opened_position(tools: Seq<(u32, u32)>, call: u32, index: u32, from: int)
    requires
        0 <= from <= tools.len(),
        tool_position(tools, call, from) == tools.len(),
    ensures
        tool_position(tools.push((call, index)), call, from) == tools.len(),
    decreases tools.len() - from,
{
    if from < tools.len() {
        lemma_opened_position(tools, call, index, from + 1);
    }
}

proof fn lemma_choices_blocks(choices: Seq<Tree>, i: int)
    requires
        0 <= i <= choices.len(),
    ensures
        choices_blocks(choices.take(i)) <= choices_blocks(choices),
    decreases choices.len() - i,
{
    if i < choices.len() {
        assert(choices.take(i + 1).drop_last() =~= choices.take(i));
        lemma_choices_blocks(choices, i + 1);
    } else {
        assert(choices.take(i) =~= choices);
    }
}

// ---------------------------------------------------------------------------
// Operations
// ---------------------------------------------------------------------------

impl Default for StreamState {
    fn default() -> (state: StreamState)
        ensures
            state@ == initial_state(),
    {
        let state = StreamState {
            emitted_response_start: false,
            emitted_message_start: false,
            interleaver: ReasoningInterleaver::new(),
            open_tool_blocks: Vec::new(),
            response_id: String::new(),
            response_model: String::new(),
            completed: false,
        };
        assert(state@ =~= initial_state());
        state
    }
}

impl StreamState {
    fn start_message(&mut self, out: &mut Vec<StreamEvent>)
        ensures
            run_of(*final(self), final(out)@) == run_of(*old(self), old(out)@).start_message(),
    {
        if !self.emitted_message_start {
            self.emitted_message_start = true;
            emit(out, StreamEvent::MessageStart { role: MessageRole::Assistant });
        }
    }

    fn mixed(&mut self, kind: DeltaKind, text: Option<&str>, out: &mut Vec<StreamEvent>)
        requires
            old(self)@.mix.next < u32::MAX,
            well_formed(old(self)@),
        ensures
            run_of(*final(self), final(out)@) == run_of(*old(self), old(out)@).mixed(
                kind,
                match text {
                    Some(t) => Some(t@),
                    None => None,
                },
            ),
            numbered(final(self)@) <= numbered(old(self)@) + is_said(
                match text {
                    Some(t) => Some(t@),
                    None => None,
                },
            ),
            well_formed(final(self)@),
    {
        if let Some(t) = text {
            if !t.is_empty() {
                self.start_message(out);
                self.interleaver.push(kind, t, out);
            }
        }
    }

    fn flush(&mut self, out: &mut Vec<StreamEvent>)
        ensures
            run_of(*final(self), final(out)@) == run_of(*old(self), old(out)@).flush(),
    {
        self.interleaver.flush(out);
    }

    fn find_tool(&self, call: u32) -> (position: usize)
        ensures
            position == tool_position(self@.tools, call, 0),
    {
        let mut i: usize = 0;
        while i < self.open_tool_blocks.len()
            invariant
                i <= self.open_tool_blocks@.len(),
                tool_position(self@.tools, call, 0) == tool_position(self@.tools, call, i as int),
            decreases self.open_tool_blocks.len() - i,
        {
            if self.open_tool_blocks[i].0 == call {
                return i;
            }
            i = i + 1;
        }
        i
    }

    fn open_tool(&mut self, call: u32, out: &mut Vec<StreamEvent>) -> (index: u32)
        requires
            numbered(old(self)@) < u32::MAX,
            well_formed(old(self)@),
        ensures
            run_of(*final(self), final(out)@) == run_of(*old(self), old(out)@).open_tool(call),
            index == run_of(*final(self), final(out)@).block_of(call),
            numbered(final(self)@) <= numbered(old(self)@) + 1,
            well_formed(final(self)@),
    {
        let position = self.find_tool(call);
        proof {
            lemma_tool_position(self@.tools, call, 0);
        }
        if position < self.open_tool_blocks.len() {
            return self.open_tool_blocks[position].1;
        }
        let open = self.open_tool_blocks.len();
        let index: u32 = self.interleaver.next_index() + open as u32;
        proof {
            lemma_opened_position(self@.tools, call, index, 0);
        }
        let ghost before = self@;
        self.open_tool_blocks.push((call, index));
        emit(out, StreamEvent::ContentBlockStart { index, kind: ContentBlockKind::ToolCall });
        proof {
            let after = self@;
            assert(index == numbered(before));
            assert forall|i: int, j: int| 0 <= i < j < after.tools.len() implies (
            #[trigger] after.tools[i]).1 < (#[trigger] after.tools[j]).1 by {
                assert(after.tools[i] == before.tools[i]);
                if j < before.tools.len() {
                    assert(after.tools[j] == before.tools[j]);
                }
            }
        }
        index
    }

    fn call(&mut self, call: &Json, out: &mut Vec<StreamEvent>)
        requires
            numbered(old(self)@) < u32::MAX,
            well_formed(old(self)@),
        ensures
            run_of(*final(self), final(out)@) == run_of(*old(self), old(out)@).call(call@),
            numbered(final(self)@) <= numbered(old(self)@) + 1,
            well_formed(final(self)@),
    {
        let number: u32 = match call.u32_member("index") {
            Some(n) => n,
            None => 0,
        };
        let index = self.open_tool(number, out);
        if let Some(id) = call.str_member("id") {
            let name = match call.get("function") {
                Some(function) => function.str_member_or("name", ""),
                None => "".to_owned(),
            };
            emit(
                out,
                StreamEvent::ToolCallStart { index, id: ToolCallId::from_provider(id), name },
            );
        }
        let arguments = match call.get("function") {
            Some(function) => function.str_member("arguments"),
            None => None,
        };
        if let Some(text) = arguments {
            if !text.is_empty() {
                emit(
                    out,
                    StreamEvent::ToolCallArgumentsDelta { index, json_fragment: text.to_owned() },
                );
            }
        }
    }

    fn delta(&mut self, delta: &Json, out: &mut Vec<StreamEvent>)
        requires
            numbered(old(self)@) + delta_blocks(delta@) <= u32::MAX,
            well_formed(old(self)@),
        ensures
            run_of(*final(self), final(out)@) == run_of(*old(self), old(out)@).delta(delta@),
            numbered(final(self)@) <= numbered(old(self)@) + delta_blocks(delta@),
            well_formed(final(self)@),
    {
        let ghost start = self@;
        if let Some(_role) = delta.str_member("role") {
            self.start_message(out);
        }
        let reasoning = delta.str_member("reasoning_content");
        let said = match reasoning {
            Some(text) => !text.is_empty(),
            None => false,
        };
        if said {
            self.mixed(DeltaKind::Reasoning, reasoning, out);
        }
        let content = delta.str_member("content");
        let spoken = match content {
            Some(text) => !text.is_empty(),
            None => false,
        };
        if spoken {
            self.mixed(DeltaKind::Text, content, out);
        }
        if let Some(calls) = delta.array_member("tool_calls") {
            self.start_message(out);
            self.flush(out);
            let ghost ready = run_of(*self, out@);
            let ghost all = trees(calls@);
            let mut i: usize = 0;
            while i < calls.len()
                invariant
                    i <= calls@.len(),
                    all == trees(calls@),
                    numbered(ready.state) + all.len() <= u32::MAX,
                    numbered(self@) <= numbered(ready.state) + i,
                    well_formed(self@),
                    run_of(*self, out@) == ready.each_call(all.take(i as int)),
                decreases calls.len() - i,
            {
                assert(all[i as int] == calls@[i as int]@);
                self.call(&calls[i], out);
                i = i + 1;
                assert(all.take(i as int).drop_last() =~= all.take(i - 1));
            }
            assert(all.take(i as int) =~= all);
        }
    }

    fn close_tools(&mut self, out: &mut Vec<StreamEvent>)
        ensures
            run_of(*final(self), final(out)@) == run_of(*old(self), old(out)@).close_tools(),
    {
        let ghost tools = self.open_tool_blocks@;
        let ghost before = events(out@);
        let mut i: usize = 0;
        assert(before + tool_stops(tools.take(0)) =~= before);
        while i < self.open_tool_blocks.len()
            invariant
                i <= self.open_tool_blocks@.len(),
                self.open_tool_blocks@ == tools,
                self@ == old(self)@,
                events(out@) == before + tool_stops(tools.take(i as int)),
            decreases self.open_tool_blocks.len() - i,
        {
            let index = self.open_tool_blocks[i].1;
            emit(out, StreamEvent::ToolCallStop { index });
            emit(out, StreamEvent::ContentBlockStop { index });
            i = i + 1;
            proof {
                assert(tools.take(i as int).drop_last() =~= tools.take(i - 1));
                assert(events(out@) =~= before + tool_stops(tools.take(i as int)));
            }
        }
        assert(tools.take(i as int) =~= tools);
        self.open_tool_blocks = Vec::new();
        assert(self@.tools =~= seq![]);
    }

    fn choice(&mut self, choice: &Json, out: &mut Vec<StreamEvent>)
        requires
            numbered(old(self)@) + choice_blocks(choice@) <= u32::MAX,
            well_formed(old(self)@),
        ensures
            run_of(*final(self), final(out)@) == run_of(*old(self), old(out)@).choice(choice@),
            numbered(final(self)@) <= numbered(old(self)@) + choice_blocks(choice@),
            well_formed(final(self)@),
    {
        if let Some(delta) = choice.get("delta") {
            self.delta(delta, out);
        }
        if let Some(reason) = choice.str_member("finish_reason") {
            if !reason.is_empty() {
                self.flush(out);
                self.close_tools(out);
                emit(
                    out,
                    StreamEvent::MessageStop {
                        stop_reason: StopReason::from_provider_string(reason),
                        stop_sequence: None,
                    },
                );
                self.completed = true;
            }
        }
    }

    /// Translates one parsed chunk.
    pub fn translate_chunk(&mut self, chunk: &Json) -> (out: Vec<StreamEvent>)
        requires
            chunk_fits(old(self)@, chunk@),
            well_formed(old(self)@),
        ensures
            run_of(*final(self), out@) == fresh(old(self)@).chunk(chunk@),
            well_formed(final(self)@),
    {
        let mut out = no_events();
        if let Some(error) = chunk.get("error") {
            let message = error.str_member_or("message", "upstream error");
            emit(&mut out, StreamEvent::Error { message });
            return out;
        }
        let id = chunk.str_member_or("id", "unknown");
        let model = chunk.str_member_or("model", "unknown");
        let created: u64 = match chunk.u64_member("created") {
            Some(n) => n,
            None => 0,
        };
        if !self.emitted_response_start {
            self.emitted_response_start = true;
            self.response_id = id.clone();
            self.response_model = model.clone();
            emit(
                &mut out,
                StreamEvent::ResponseStart { id: ResponseId(id), model, created_at_unix: created },
            );
        }
        if let Some(choices) = chunk.array_member("choices") {
            let ghost begun = run_of(*self, out@);
            let ghost all = trees(choices@);
            let mut i: usize = 0;
            while i < choices.len()
                invariant
                    i <= choices@.len(),
                    all == trees(choices@),
                    numbered(begun.state) + choices_blocks(all) <= u32::MAX,
                    numbered(self@) <= numbered(begun.state) + choices_blocks(all.take(i as int)),
                    well_formed(self@),
                    run_of(*self, out@) == begun.each_choice(all.take(i as int)),
                decreases choices.len() - i,
            {
                proof {
                    assert(all[i as int] == choices@[i as int]@);
                    assert(all.take(i + 1).drop_last() =~= all.take(i as int));
                    lemma_choices_blocks(all, i + 1);
                }
                self.choice(&choices[i], &mut out);
                i = i + 1;
            }
            assert(all.take(i as int) =~= all);
        }
        if let Some(raw) = chunk.get("usage") {
            if !raw.is_null() {
                emit(&mut out, StreamEvent::UsageDelta { usage: map_usage(raw) });
            }
        }
        out
    }

    /// Whether the blocks that a chunk can open have representable numbers.
    pub fn fits(&self, chunk: &Json) -> (fit: bool)
        ensures
            fit == chunk_fits(self@, chunk@),
    {
        if chunk.get("error").is_some() {
            return true;
        }
        let open = self.open_tool_blocks.len();
        if open > 0xffff_ffff {
            return false;
        }
        let mut total: u64 = self.interleaver.next_index() as u64 + open as u64;
        if total > 0xffff_ffff {
            return false;
        }
        let choices = match chunk.array_member("choices") {
            Some(choices) => choices,
            None => {
                return true;
            },
        };
        let ghost all = trees(choices@);
        let mut i: usize = 0;
        while i < choices.len()
            invariant
                i <= choices@.len(),
                all == trees(choices@),
                chunk_fits(self@, chunk@) == (numbered(self@) + choices_blocks(all) <= u32::MAX),
                total == numbered(self@) + choices_blocks(all.take(i as int)),
                total <= u32::MAX,
            decreases choices.len() - i,
        {
            proof {
                assert(all[i as int] == choices@[i as int]@);
                assert(all.take(i + 1).drop_last() =~= all.take(i as int));
                lemma_choices_blocks(all, i + 1);
            }
            let (said, calls) = count_blocks(&choices[i]);
            if calls > 0xffff_ffff {
                return false;
            }
            total = total + said as u64 + calls as u64;
            if total > 0xffff_ffff {
                return false;
            }
            i = i + 1;
        }
        assert(all.take(i as int) =~= all);
        true
    }

    /// Parses and translates the text of one chunk. There is no result, and
    /// the state stays as it was, where the blocks that the chunk can open
    /// have no representable numbers.
    pub fn parse_chunk(&mut self, data: &str) -> (result: Option<Result<Vec<StreamEvent>, String>>)
        requires
            well_formed(old(self)@),
        ensures
            well_formed(final(self)@),
            match parsed_text(data@) {
                Err(message) => {
                    &&& *final(self) == *old(self)
                    &&& match result {
                        Some(Err(text)) => text@ == "json parse: "@ + message,
                        _ => false,
                    }
                },
                Ok(chunk) => if chunk_fits(old(self)@, chunk) {
                    match result {
                        Some(Ok(out)) => run_of(*final(self), out@) == fresh(old(self)@).chunk(
                            chunk,
                        ),
                        _ => false,
                    }
                } else {
                    result is None && *final(self) == *old(self)
                },
            },
    {
        match Json::parse(data) {
            Err(message) => {
                let mut text = "json parse: ".to_owned();
                text.append(message.as_str());
                Some(Err(text))
            },
            Ok(chunk) => {
                if self.fits(&chunk) {
                    Some(Ok(self.translate_chunk(&chunk)))
                } else {
                    None
                }
            },
        }
    }

    /// Handles the `[DONE]` sentinel.
    pub fn handle_done(&mut self) -> (out: Vec<StreamEvent>)
        requires
            well_formed(old(self)@),
        ensures
            run_of(*final(self), out@) == fresh(old(self)@).done(),
            well_formed(final(self)@),
    {
        let mut out = no_events();
        self.flush(&mut out);
        self.close_tools(&mut out);
        emit(&mut out, StreamEvent::ResponseStop { usage: None });
        self.completed = true;
        out
    }

    /// Handles the data of one server-sent event. There is no result, and the
    /// state stays as it was, where the blocks that a chunk can open have no
    /// representable numbers.
    pub fn handle_event(
        &mut self,
        data: &str,
    ) -> (result: Option<Result<Vec<StreamEvent>, StreamError>>)
        requires
            well_formed(old(self)@),
        ensures
            well_formed(final(self)@),
            if data@ == "[DONE]"@ {
                match result {
                    Some(Ok(out)) => run_of(*final(self), out@) == fresh(old(self)@).done(),
                    _ => false,
                }
            } else {
                match parsed_text(data@) {
                    Err(message) => {
                        &&& *final(self) == *old(self)
                        &&& match result {
                            Some(Err(StreamError::Decode(text))) => text@ == "json parse: "@
                                + message,
                            _ => false,
                        }
                    },
                    Ok(chunk) => if chunk_fits(old(self)@, chunk) {
                        match result {
                            Some(Ok(out)) => run_of(*final(self), out@) == fresh(
                                old(self)@,
                            ).chunk(chunk),
                            _ => false,
                        }
                    } else {
                        result is None && *final(self) == *old(self)
                    },
                }
            },
    {
        if same_text(data, "[DONE]") {
            return Some(Ok(self.handle_done()));
        }
        match self.parse_chunk(data) {
            None => None,
            Some(Ok(out)) => Some(Ok(out)),
            Some(Err(message)) => Some(Err(StreamError::Decode(message))),
        }
    }

    /// Handles an error of the transport: it is dropped once the stream has
    /// ended, and passed on before.
    pub fn handle_transport_error(&self, message: &str) -> (error: Option<StreamError>)
        ensures
            match error {
                None => self@.completed,
                Some(StreamError::Upstream(text)) => !self@.completed && text@ == message@,
                Some(StreamError::Decode(_)) => false,
            },
    {
        if self.completed {
            None
        } else {
            Some(StreamError::Upstream(message.to_owned()))
        }
    }
}

fn count_blocks(choice: &Json) -> (said_and_calls: (u32, usize))
    ensures
        said_and_calls.0 + said_and_calls.1 == choice_blocks(choice@),
        said_and_calls.0 <= 2,
{
    let delta = match choice.get("delta") {
        Some(delta) => delta,
        None => {
            return (0, 0);
        },
    };
    let mut said: u32 = 0;
    if let Some(text) = delta.str_member("reasoning_content") {
        if !text.is_empty() {
            said = said + 1;
        }
    }
    if let Some(text) = delta.str_member("content") {
        if !text.is_empty() {
            said = said + 1;
        }
    }
    let calls: usize = match delta.array_member("tool_calls") {
        Some(calls) => calls.len(),
        None => 0,
    };
    (said, calls)
}

/// The counts of a complete response.
pub open spec fn response_counts(response: Tree) -> Option<Counts> {
    match response.get("usage"@) {
        Some(raw) => Some(mapped(raw)),
        None => None,
    }
}

/// Parses and translates the bytes of a complete response. There is no result
/// where the block numbers are not representable.
pub fn parse_unary_inner(body: &[u8]) -> (result: Option<Result<Vec<StreamEvent>, String>>)
    ensures
        match parsed_bytes(body@) {
            Err(message) => match result {
                Some(Err(text)) => text@ == "json parse: "@ + message,
                _ => false,
            },
            Ok(response) => if response_fits(response) {
                match (translated(response, response_counts(response)), result) {
                    (Ok(wanted), Some(Ok(out))) => events(out@) == wanted,
                    (Err(message), Some(Err(text))) => text@ == message,
                    _ => false,
                }
            } else {
                result is None
            },
        },
{
    match Json::parse_bytes(body) {
        Err(message) => {
            let mut text = "json parse: ".to_owned();
            text.append(message.as_str());
            Some(Err(text))
        },
        Ok(response) => {
            if parse_unary::block_numbers_fit(&response) {
                let usage = match response.get("usage") {
                    Some(raw) => Some(map_usage(raw)),
                    None => None,
                };
                Some(parse_unary::translate_response(&response, usage))
            } else {
                None
            }
        },
    }
}

} // verus!
