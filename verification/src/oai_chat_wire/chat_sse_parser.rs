//! Turns the server-sent events of a chat-completions stream into canonical
//! events.
use vstd::prelude::*;
use vstd::string::*;

use crate::canonical::{MessageRole, ToolCallId};
use crate::json::{
    array_member, parsed_text, str_member, str_member_or, trees, u32_member, u64_member, Json, Tree,
};
use crate::stream::{
    emit, events, no_counts, no_events, openai_stop, ContentBlockKind, Counts, Event, ResponseId,
    Stop, StopReason, StreamError, StreamEvent, Usage,
};
use crate::text::same_text;

verus! {

/// What the parser remembers between events.
pub struct ParserState {
    pub emitted_response_start: bool,
    pub emitted_message_start: bool,
    pub emitted_message_stop: bool,
    pub emitted_response_stop: bool,
    pub text_block_open: bool,
    pub open_tool_blocks: Vec<u32>,
    pub response_id: String,
    pub response_model: String,
    pub stream_completed: bool,
}

// ---------------------------------------------------------------------------
// Model
// ---------------------------------------------------------------------------

/// The model of `ParserState`.
#[verifier::ext_equal]
pub struct ChatState {
    pub response_start: bool,
    pub message_start: bool,
    pub message_stop: bool,
    pub response_stop: bool,
    pub text_open: bool,
    pub open_tools: Seq<u32>,
    pub id: Seq<char>,
    pub model: Seq<char>,
    pub completed: bool,
}

/// A parser state together with the events emitted so far.
#[verifier::ext_equal]
pub struct Run {
    pub state: ChatState,
    pub out: Seq<Event>,
}

impl ParserState {
    pub open spec fn view(&self) -> ChatState {
        ChatState {
            response_start: self.emitted_response_start,
            message_start: self.emitted_message_start,
            message_stop: self.emitted_message_stop,
            response_stop: self.emitted_response_stop,
            text_open: self.text_block_open,
            open_tools: self.open_tool_blocks@,
            id: self.response_id@,
            model: self.response_model@,
            completed: self.stream_completed,
        }
    }
}

/// The state before the first event.
pub open spec fn initial_state() -> ChatState {
    ChatState {
        response_start: false,
        message_start: false,
        message_stop: false,
        response_stop: false,
        text_open: false,
        open_tools: seq![],
        id: seq![],
        model: seq![],
        completed: false,
    }
}

/// A run from `state` that has emitted nothing yet.
pub open spec fn fresh(state: ChatState) -> Run {
    Run { state, out: seq![] }
}

/// The run of a parser and the events that it has collected.
pub open spec fn run_of(parser: ParserState, out: Seq<StreamEvent>) -> Run {
    Run { state: parser@, out: events(out) }
}

/// A tool block is numbered from one, and open at most once.
pub open spec fn well_formed(state: ChatState) -> bool {
    &&& !state.open_tools.contains(0)
    &&& state.open_tools.no_duplicates()
}

impl Run {
    pub open spec fn emit(self, event: Event) -> Run {
        Run { out: self.out.push(event), ..self }
    }

    /// The response is announced once, under the first identifier and model.
    pub open spec fn respond(self, id: Seq<char>, model: Seq<char>, created: u64) -> Run {
        if self.state.response_start {
            self
        } else {
            Run { state: ChatState { response_start: true, id, model, ..self.state }, ..self }.emit(
                Event::ResponseStart { id, model, created_at_unix: created },
            )
        }
    }

    /// The message is announced once.
    pub open spec fn start_message(self) -> Run {
        if self.state.message_start {
            self
        } else {
            Run { state: ChatState { message_start: true, ..self.state }, ..self }.emit(
                Event::MessageStart { role: MessageRole::Assistant },
            )
        }
    }

    /// The text block is open.
    pub open spec fn open_text(self) -> Run {
        if self.state.text_open {
            self
        } else {
            Run { state: ChatState { text_open: true, ..self.state }, ..self }.emit(
                Event::ContentBlockStart { index: 0, kind: ContentBlockKind::Text },
            )
        }
    }

    /// The text block is closed.
    pub open spec fn close_text(self) -> Run {
        if self.state.text_open {
            Run { state: ChatState { text_open: false, ..self.state }, ..self }.emit(
                Event::ContentBlockStop { index: 0 },
            )
        } else {
            self
        }
    }

    /// The tool block `index` is open.
    pub open spec fn open_tool(self, index: u32) -> Run {
        if self.state.open_tools.contains(index) {
            self
        } else {
            Run {
                state: ChatState { open_tools: self.state.open_tools.push(index), ..self.state },
                ..self
            }.emit(Event::ContentBlockStart { index, kind: ContentBlockKind::ToolCall })
        }
    }

    /// Every tool block is closed, in the order in which they were opened.
    pub open spec fn close_tools(self) -> Run {
        Run {
            state: ChatState { open_tools: seq![], ..self.state },
            out: self.out + tool_stops(self.state.open_tools),
        }
    }

    /// The message is ended once.
    pub open spec fn stop_message(self, reason: Stop) -> Run {
        if self.state.message_stop {
            self
        } else {
            Run { state: ChatState { message_stop: true, ..self.state }, ..self }.emit(
                Event::MessageStop { stop_reason: reason, stop_sequence: None },
            )
        }
    }

    /// The response is ended once.
    pub open spec fn stop_response(self) -> Run {
        if self.state.response_stop {
            self
        } else {
            Run { state: ChatState { response_stop: true, ..self.state }, ..self }.emit(
                Event::ResponseStop { usage: None },
            )
        }
    }

    pub open spec fn complete(self) -> Run {
        Run { state: ChatState { completed: true, ..self.state }, ..self }
    }

    /// A delta's role announces the message.
    pub open spec fn role(self, delta: Tree) -> Run {
        if str_member(delta, "role"@) is Some {
            self.start_message()
        } else {
            self
        }
    }

    /// A delta's text goes to the text block.
    pub open spec fn content(self, delta: Tree) -> Run {
        match str_member(delta, "content"@) {
            Some(text) => if text.len() > 0 {
                self.start_message().open_text().emit(Event::TextDelta { index: 0, text })
            } else {
                self
            },
            None => self,
        }
    }

    /// A delta's tool calls come after the text block has closed.
    pub open spec fn tool_calls(self, delta: Tree) -> Run {
        match array_member(delta, "tool_calls"@) {
            Some(calls) => self.start_message().close_text().each_call(calls),
            None => self,
        }
    }

    pub open spec fn each_call(self, calls: Seq<Tree>) -> Run
        decreases calls.len(),
    {
        if calls.len() == 0 {
            self
        } else {
            self.each_call(calls.drop_last()).call(calls.last())
        }
    }

    /// One tool call: an identifier announces it, arguments extend it.
    pub open spec fn call(self, call: Tree) -> Run {
        self.call_start(call).call_arguments(call)
    }

    pub open spec fn call_start(self, call: Tree) -> Run {
        let index = block_index(call);
        match str_member(call, "id"@) {
            Some(id) => self.open_tool(index).emit(
                Event::ToolCallStart { index, id, name: call_name(call) },
            ),
            None => self,
        }
    }

    pub open spec fn call_arguments(self, call: Tree) -> Run {
        match call_function_member(call, "arguments"@) {
            Some(text) => if text.len() > 0 {
                self.emit(
                    Event::ToolCallArgumentsDelta { index: block_index(call), json_fragment: text },
                )
            } else {
                self
            },
            None => self,
        }
    }

    pub open spec fn delta(self, choice: Tree) -> Run {
        match choice.get("delta"@) {
            Some(delta) => self.role(delta).content(delta).tool_calls(delta),
            None => self,
        }
    }

    /// A finish reason closes every block and ends the message.
    pub open spec fn finish(self, choice: Tree) -> Run {
        match str_member(choice, "finish_reason"@) {
            Some(reason) => if reason.len() > 0 {
                self.close_text().close_tools().stop_message(openai_stop(reason)).complete()
            } else {
                self
            },
            None => self,
        }
    }

    pub open spec fn each_choice(self, choices: Seq<Tree>) -> Run
        decreases choices.len(),
    {
        if choices.len() == 0 {
            self
        } else {
            self.each_choice(choices.drop_last()).delta(choices.last()).finish(choices.last())
        }
    }

    pub open spec fn usage(self, chunk: Tree) -> Run {
        match usage_of(chunk) {
            Some(usage) => self.emit(Event::UsageDelta { usage }),
            None => self,
        }
    }

    /// One chunk of the stream.
    pub open spec fn chunk(self, chunk: Tree) -> Run {
        match chunk.get("error"@) {
            Some(error) => self.emit(
                Event::Error { message: str_member_or(error, "message"@, "upstream error"@) },
            ),
            None => {
                let begun = self.respond(
                    str_member_or(chunk, "id"@, "unknown"@),
                    str_member_or(chunk, "model"@, "unknown"@),
                    match u64_member(chunk, "created"@) {
                        Some(n) => n,
                        None => 0,
                    },
                );
                match array_member(chunk, "choices"@) {
                    None => begun.usage(chunk),
                    Some(choices) => {
                        let done = begun.each_choice(choices);
                        if chunk.get("usage"@) == Some(Tree::Null) {
                            done
                        } else {
                            done.usage(chunk)
                        }
                    },
                }
            },
        }
    }

    /// The end-of-stream sentinel: whatever is missing is supplied.
    pub open spec fn done(self) -> Run {
        self.respond(self.state.id, self.state.model, 0).start_message().close_text().close_tools()
            .stop_message(Stop::EndTurn).stop_response().complete()
    }

    /// The end of the transport: an envelope that was begun is completed.
    pub open spec fn finalized(self) -> Run {
        if self.state.response_stop || !self.state.response_start {
            self
        } else {
            self.start_message().close_text().close_tools().stop_message(
                Stop::EndTurn,
            ).stop_response()
        }
    }
}

/// The events that close tool blocks.
pub open spec fn tool_stops(tools: Seq<u32>) -> Seq<Event>
    decreases tools.len(),
{
    if tools.len() == 0 {
        seq![]
    } else {
        tool_stops(tools.drop_last()).push(Event::ToolCallStop { index: tools.last() }).push(
            Event::ContentBlockStop { index: tools.last() },
        )
    }
}

/// The upstream number of a tool call.
pub open spec fn call_index(call: Tree) -> u32 {
    match u32_member(call, "index"@) {
        Some(n) => n,
        None => 0,
    }
}

/// The block of a tool call: block zero is the text block.
pub open spec fn block_index(call: Tree) -> u32 {
    (call_index(call) + 1) as u32
}

/// A string member of the call's `function` member.
pub open spec fn call_function_member(call: Tree, key: Seq<char>) -> Option<Seq<char>> {
    match call.get("function"@) {
        Some(function) => str_member(function, key),
        None => None,
    }
}

/// The name of the called function.
pub open spec fn call_name(call: Tree) -> Seq<char> {
    match call_function_member(call, "name"@) {
        Some(name) => name,
        None => ""@,
    }
}

/// Whether the block number of every call of a delta is representable.
pub open spec fn calls_fit(calls: Seq<Tree>) -> bool {
    forall|i: int| 0 <= i < calls.len() ==> call_index(#[trigger] calls[i]) < u32::MAX
}

pub open spec fn choice_fits(choice: Tree) -> bool {
    match choice.get("delta"@) {
        Some(delta) => match array_member(delta, "tool_calls"@) {
            Some(calls) => calls_fit(calls),
            None => true,
        },
        None => true,
    }
}

pub open spec fn choices_fit(choices: Seq<Tree>) -> bool {
    forall|i: int| 0 <= i < choices.len() ==> choice_fits(#[trigger] choices[i])
}

/// Whether the block number of every tool call of a chunk is representable. An
/// error has none.
pub open spec fn chunk_fits(chunk: Tree) -> bool {
    chunk.get("error"@) is Some || match array_member(chunk, "choices"@) {
        Some(choices) => choices_fit(choices),
        None => true,
    }
}

/// The counts that a chunk's `usage` member reports.
pub open spec fn usage_of(chunk: Tree) -> Option<Counts> {
    match chunk.get("usage"@) {
        Some(u) => Some(
            Counts {
                input_tokens: u32_member(u, "prompt_tokens"@),
                output_tokens: u32_member(u, "completion_tokens"@),
                cache_creation_input_tokens: u32_member(u, "cache_creation_input_tokens"@),
                cache_read_input_tokens: cached_tokens(u),
                ..no_counts()
            },
        ),
        None => None,
    }
}

/// The cached tokens, under the one name or the other.
pub open spec fn cached_tokens(u: Tree) -> Option<u32> {
    if u.get("cache_read_input_tokens"@) is Some {
        u32_member(u, "cache_read_input_tokens"@)
    } else {
        match u.get("prompt_tokens_details"@) {
            Some(details) => u32_member(details, "cached_tokens"@),
            None => None,
        }
    }
}

// ---------------------------------------------------------------------------
// Operations
// ---------------------------------------------------------------------------

impl Default for ParserState {
    fn default() -> (state: ParserState)
        ensures
            state@ == initial_state(),
    {
        let state = ParserState {
            emitted_response_start: false,
            emitted_message_start: false,
            emitted_message_stop: false,
            emitted_response_stop: false,
            text_block_open: false,
            open_tool_blocks: Vec::new(),
            response_id: String::new(),
            response_model: String::new(),
            stream_completed: false,
        };
        assert(state@ =~= initial_state());
        state
    }
}

impl ParserState {
    fn respond(&mut self, id: &str, model: &str, created: u64, out: &mut Vec<StreamEvent>)
        ensures
            run_of(*final(self), final(out)@) == run_of(*old(self), old(out)@).respond(
                id@,
                model@,
                created,
            ),
    {
        if !self.emitted_response_start {
            self.emitted_response_start = true;
            self.response_id = id.to_owned();
            self.response_model = model.to_owned();
            emit(
                out,
                StreamEvent::ResponseStart {
                    id: ResponseId(id.to_owned()),
                    model: model.to_owned(),
                    created_at_unix: created,
                },
            );
        }
    }

    fn start_message(&mut self, out: &mut Vec<StreamEvent>)
        ensures
            run_of(*final(self), final(out)@) == run_of(*old(self), old(out)@).start_message(),
    {
        if !self.emitted_message_start {
            self.emitted_message_start = true;
            emit(out, StreamEvent::MessageStart { role: MessageRole::Assistant });
        }
    }

    fn open_text(&mut self, out: &mut Vec<StreamEvent>)
        ensures
            run_of(*final(self), final(out)@) == run_of(*old(self), old(out)@).open_text(),
    {
        if !self.text_block_open {
            self.text_block_open = true;
            emit(out, StreamEvent::ContentBlockStart { index: 0, kind: ContentBlockKind::Text });
        }
    }

    fn close_text(&mut self, out: &mut Vec<StreamEvent>)
        ensures
            run_of(*final(self), final(out)@) == run_of(*old(self), old(out)@).close_text(),
    {
        if self.text_block_open {
            self.text_block_open = false;
            emit(out, StreamEvent::ContentBlockStop { index: 0 });
        }
    }

    fn is_open(&self, index: u32) -> (open: bool)
        ensures
            open == self@.open_tools.contains(index),
    {
        let mut i: usize = 0;
        while i < self.open_tool_blocks.len()
            invariant
                i <= self.open_tool_blocks@.len(),
                forall|k: int| 0 <= k < i ==> self.open_tool_blocks@[k] != index,
            decreases self.open_tool_blocks.len() - i,
        {
            if self.open_tool_blocks[i] == index {
                return true;
            }
            i = i + 1;
        }
        false
    }

    fn open_tool(&mut self, index: u32, out: &mut Vec<StreamEvent>)
        ensures
            run_of(*final(self), final(out)@) == run_of(*old(self), old(out)@).open_tool(index),
    {
        if !self.is_open(index) {
            self.open_tool_blocks.push(index);
            emit(out, StreamEvent::ContentBlockStart { index, kind: ContentBlockKind::ToolCall });
        }
    }

    fn close_tools(&mut self, out: &mut Vec<StreamEvent>)
        ensures
            run_of(*final(self), final(out)@) == run_of(*old(self), old(out)@).close_tools(),
    {
        let ghost tools = self.open_tool_blocks@;
        let ghost before = events(out@);
        let mut i: usize = 0;
        assert(before + tool_stops(tools.take(0)) =~= before);
        while i < self.open_tool_blocks.len()
            invariant
                i <= self.open_tool_blocks@.len(),
                self.open_tool_blocks@ == tools,
                self@ == old(self)@,
                events(out@) == before + tool_stops(tools.take(i as int)),
            decreases self.open_tool_blocks.len() - i,
        {
            let index = self.open_tool_blocks[i];
            emit(out, StreamEvent::ToolCallStop { index });
            emit(out, StreamEvent::ContentBlockStop { index });
            i = i + 1;
            proof {
                assert(tools.take(i as int).drop_last() =~= tools.take(i - 1));
                assert(events(out@) =~= before + tool_stops(tools.take(i as int)));
            }
        }
        assert(tools.take(i as int) =~= tools);
        self.open_tool_blocks = Vec::new();
        assert(self@.open_tools =~= seq![]);
    }

    fn stop_message(&mut self, reason: StopReason, out: &mut Vec<StreamEvent>)
        ensures
            run_of(*final(self), final(out)@) == run_of(*old(self), old(out)@).stop_message(
                reason@,
            ),
    {
        if !self.emitted_message_stop {
            self.emitted_message_stop = true;
            emit(out, StreamEvent::MessageStop { stop_reason: reason, stop_sequence: None });
        }
    }

    fn stop_response(&mut self, out: &mut Vec<StreamEvent>)
        ensures
            run_of(*final(self), final(out)@) == run_of(*old(self), old(out)@).stop_response(),
    {
        if !self.emitted_response_stop {
            self.emitted_response_stop = true;
            emit(out, StreamEvent::ResponseStop { usage: None });
        }
    }

    fn call(&mut self, call: &Json, out: &mut Vec<StreamEvent>)
        requires
            call_index(call@) < u32::MAX,
        ensures
            run_of(*final(self), final(out)@) == run_of(*old(self), old(out)@).call(call@),
    {
        let upstream_index: u32 = match call.u32_member("index") {
            Some(n) => n,
            None => 0,
        };
        let index: u32 = upstream_index + 1;
        if let Some(id) = call.str_member("id") {
            let name = call_function_name(call);
            self.open_tool(index, out);
            emit(
                out,
                StreamEvent::ToolCallStart { index, id: ToolCallId::from_provider(id), name },
            );
        }
        let arguments = match call.get("function") {
            Some(function) => function.str_member("arguments"),
            None => None,
        };
        if let Some(text) = arguments {
            if !text.is_empty() {
                emit(
                    out,
                    StreamEvent::ToolCallArgumentsDelta { index, json_fragment: text.to_owned() },
                );
            }
        }
    }

    fn delta(&mut self, delta: &Json, out: &mut Vec<StreamEvent>)
        requires
            match array_member(delta@, "tool_calls"@) {
                Some(calls) => calls_fit(calls),
                None => true,
            },
        ensures
            run_of(*final(self), final(out)@) == run_of(*old(self), old(out)@).role(
                delta@,
            ).content(delta@).tool_calls(delta@),
    {
        if let Some(_role) = delta.str_member("role") {
            self.start_message(out);
        }
        if let Some(text) = delta.str_member("content") {
            if !text.is_empty() {
                self.start_message(out);
                self.open_text(out);
                emit(out, StreamEvent::TextDelta { index: 0, text: text.to_owned() });
            }
        }
        if let Some(calls) = delta.array_member("tool_calls") {
            self.start_message(out);
            self.close_text(out);
            let ghost ready = run_of(*self, out@);
            let ghost all = trees(calls@);
            let mut i: usize = 0;
            while i < calls.len()
                invariant
                    i <= calls@.len(),
                    all == trees(calls@),
                    calls_fit(all),
                    run_of(*self, out@) == ready.each_call(all.take(i as int)),
                decreases calls.len() - i,
            {
                assert(all[i as int] == calls@[i as int]@);
                self.call(&calls[i], out);
                i = i + 1;
                assert(all.take(i as int).drop_last() =~= all.take(i - 1));
            }
            assert(all.take(i as int) =~= all);
        }
    }

    /// Translates one parsed chunk.
    pub fn translate_chunk(&mut self, chunk: &Json) -> (out: Vec<StreamEvent>)
        requires
            chunk_fits(chunk@),
        ensures
            run_of(*final(self), out@) == fresh(old(self)@).chunk(chunk@),
    {
        let mut out = no_events();
        if let Some(error) = chunk.get("error") {
            let message = error.str_member_or("message", "upstream error");
            emit(&mut out, StreamEvent::Error { message });
            return out;
        }
        let id = chunk.str_member_or("id", "unknown");
        let model = chunk.str_member_or("model", "unknown");
        let created: u64 = match chunk.u64_member("created") {
            Some(n) => n,
            None => 0,
        };
        self.respond(id.as_str(), model.as_str(), created, &mut out);
        let choices = match chunk.array_member("choices") {
            Some(choices) => choices,
            None => {
                if let Some(usage) = parse_usage(chunk) {
                    emit(&mut out, StreamEvent::UsageDelta { usage });
                }
                return out;
            },
        };
        let ghost begun = run_of(*self, out@);
        let ghost all = trees(choices@);
        let mut i: usize = 0;
        while i < choices.len()
            invariant
                i <= choices@.len(),
                all == trees(choices@),
                choices_fit(all),
                run_of(*self, out@) == begun.each_choice(all.take(i as int)),
            decreases choices.len() - i,
        {
            let choice = &choices[i];
            assert(all[i as int] == choice@);
            assert(choice_fits(all[i as int]));
            if let Some(delta) = choice.get("delta") {
                self.delta(delta, &mut out);
            }
            if let Some(reason) = choice.str_member("finish_reason") {
                if !reason.is_empty() {
                    self.close_text(&mut out);
                    self.close_tools(&mut out);
                    self.stop_message(StopReason::from_provider_string(reason), &mut out);
                    self.stream_completed = true;
                }
            }
            i = i + 1;
            assert(all.take(i as int).drop_last() =~= all.take(i - 1));
        }
        assert(all.take(i as int) =~= all);
        let null_usage = match chunk.get("usage") {
            Some(u) => u.is_null(),
            None => false,
        };
        if !null_usage {
            if let Some(usage) = parse_usage(chunk) {
                emit(&mut out, StreamEvent::UsageDelta { usage });
            }
        }
        out
    }

    /// Parses and translates the text of one chunk. There is no result, and
    /// the state stays as it was, where the block number of a tool call is not
    /// representable.
    pub fn parse_chunk(&mut self, data: &str) -> (result: Option<Result<Vec<StreamEvent>, String>>)
        ensures
            match parsed_text(data@) {
                Err(message) => {
                    &&& *final(self) == *old(self)
                    &&& match result {
                        Some(Err(text)) => text@ == "json parse: "@ + message,
                        _ => false,
                    }
                },
                Ok(chunk) => if chunk_fits(chunk) {
                    match result {
                        Some(Ok(out)) => run_of(*final(self), out@) == fresh(old(self)@).chunk(
                            chunk,
                        ),
                        _ => false,
                    }
                } else {
                    result is None && *final(self) == *old(self)
                },
            },
    {
        match Json::parse(data) {
            Err(message) => {
                let mut text = "json parse: ".to_owned();
                text.append(message.as_str());
                Some(Err(text))
            },
            Ok(chunk) => {
                if tool_indices_fit(&chunk) {
                    Some(Ok(self.translate_chunk(&chunk)))
                } else {
                    None
                }
            },
        }
    }

    /// Handles the `[DONE]` sentinel.
    pub fn handle_done(&mut self) -> (out: Vec<StreamEvent>)
        ensures
            run_of(*final(self), out@) == fresh(old(self)@).done(),
    {
        let mut out = no_events();
        let id = self.response_id.clone();
        let model = self.response_model.clone();
        self.respond(id.as_str(), model.as_str(), 0, &mut out);
        self.start_message(&mut out);
        self.close_text(&mut out);
        self.close_tools(&mut out);
        self.stop_message(StopReason::EndTurn, &mut out);
        self.stop_response(&mut out);
        self.stream_completed = true;
        out
    }

    /// Handles the end of the transport.
    pub fn finalize(&mut self) -> (out: Vec<StreamEvent>)
        ensures
            run_of(*final(self), out@) == fresh(old(self)@).finalized(),
    {
        let mut out = no_events();
        if self.emitted_response_stop || !self.emitted_response_start {
            return out;
        }
        self.start_message(&mut out);
        self.close_text(&mut out);
        self.close_tools(&mut out);
        self.stop_message(StopReason::EndTurn, &mut out);
        self.stop_response(&mut out);
        out
    }

    /// Handles the data of one server-sent event. There is no result, and the
    /// state stays as it was, where the block number of a tool call is not
    /// representable.
    pub fn handle_event(
        &mut self,
        data: &str,
    ) -> (result: Option<Result<Vec<StreamEvent>, StreamError>>)
        ensures
            if data@ == "[DONE]"@ {
                match result {
                    Some(Ok(out)) => run_of(*final(self), out@) == fresh(old(self)@).done(),
                    _ => false,
                }
            } else {
                match parsed_text(data@) {
                    Err(message) => {
                        &&& *final(self) == *old(self)
                        &&& match result {
                            Some(Err(StreamError::Decode(text))) => text@ == "json parse: "@
                                + message,
                            _ => false,
                        }
                    },
                    Ok(chunk) => if chunk_fits(chunk) {
                        match result {
                            Some(Ok(out)) => run_of(*final(self), out@) == fresh(
                                old(self)@,
                            ).chunk(chunk),
                            _ => false,
                        }
                    } else {
                        result is None && *final(self) == *old(self)
                    },
                }
            },
    {
        if same_text(data, "[DONE]") {
            return Some(Ok(self.handle_done()));
        }
        match self.parse_chunk(data) {
            None => None,
            Some(Ok(out)) => Some(Ok(out)),
            Some(Err(message)) => Some(Err(StreamError::Decode(message))),
        }
    }

    /// Handles an error of the transport: it is dropped once the stream has
    /// ended cleanly, and passed on before.
    pub fn handle_transport_error(&self, message: &str) -> (error: Option<StreamError>)
        ensures
            match error {
                None => self@.completed,
                Some(StreamError::Upstream(text)) => !self@.completed && text@ == message@,
                Some(StreamError::Decode(_)) => false,
            },
    {
        if self.stream_completed {
            None
        } else {
            Some(StreamError::Upstream(message.to_owned()))
        }
    }
}

fn call_function_name(call: &Json) -> (name: String)
    ensures
        name@ == call_name(call@),
{
    match call.get("function") {
        Some(function) => function.str_member_or("name", ""),
        None => "".to_owned(),
    }
}

/// The counts that a chunk's `usage` member reports.
pub fn parse_usage(chunk: &Json) -> (usage: Option<Usage>)
    ensures
        match usage {
            Some(u) => usage_of(chunk@) == Some(u@),
            None => usage_of(chunk@) is None,
        },
{
    match chunk.get("usage") {
        Some(u) => {
            let cached = match u.get("cache_read_input_tokens") {
                Some(_) => u.u32_member("cache_read_input_tokens"),
                None => match u.get("prompt_tokens_details") {
                    Some(details) => details.u32_member("cached_tokens"),
                    None => None,
                },
            };
            Some(
                Usage {
                    input_tokens: u.u32_member("prompt_tokens"),
                    output_tokens: u.u32_member("completion_tokens"),
                    cache_creation_input_tokens: u.u32_member("cache_creation_input_tokens"),
                    cache_read_input_tokens: cached,
                    reasoning_tokens: None,
                    estimated: false,
                    provider_raw: None,
                },
            )
        },
        None => None,
    }
}

/// Whether the block number of every tool call of a chunk is representable.
pub fn tool_indices_fit(chunk: &Json) -> (fit: bool)
    ensures
        fit == chunk_fits(chunk@),
{
    if chunk.get("error").is_some() {
        return true;
    }
    match chunk.array_member("choices") {
        Some(choices) => {
            let ghost all = trees(choices@);
            let mut i: usize = 0;
            while i < choices.len()
                invariant
                    i <= choices@.len(),
                    all == trees(choices@),
                    chunk_fits(chunk@) == choices_fit(all),
                    forall|k: int| 0 <= k < i ==> choice_fits(#[trigger] all[k]),
                decreases choices.len() - i,
            {
                assert(all[i as int] == choices@[i as int]@);
                if !choice_indices_fit(&choices[i]) {
                    return false;
                }
                i = i + 1;
            }
            true
        },
        None => true,
    }
}

fn choice_indices_fit(choice: &Json) -> (fit: bool)
    ensures
        fit == choice_fits(choice@),
{
    let calls = match choice.get("delta") {
        Some(delta) => match delta.array_member("tool_calls") {
            Some(calls) => calls,
            None => {
                return true;
            },
        },
        None => {
            return true;
        },
    };
    let ghost all = trees(calls@);
    let mut i: usize = 0;
    while i < calls.len()
        invariant
            i <= calls@.len(),
            all == trees(calls@),
            choice_fits(choice@) == calls_fit(all),
            forall|k: int| 0 <= k < i ==> call_index(#[trigger] all[k]) < u32::MAX,
        decreases calls.len() - i,
    {
        assert(all[i as int] == calls@[i as int]@);
        let index: u32 = match calls[i].u32_member("index") {
            Some(n) => n,
            None => 0,
        };
        if index == u32::MAX {
            return false;
        }
        i = i + 1;
    }
    true
}

} // verus!
