//! Reads Generate Content responses: a whole one into a canonical response,
//! and the chunks of a stream into canonical events.
use vstd::prelude::*;
use vstd::string::*;

use super::wire::{
    part_models, rating_trees, ratings_to_json, Candidate, FunctionCall, GenerateContentResponse,
    Part, PartModel, UsageMetadata,
};
use crate::canonical::{
    block_models, ArgumentsModel, BinarySource, BlockModel, ContentBlock, ExtensionMap, ImageBlock,
    MessageRole, ReasoningBlock, SourceModel, TextBlock, ToolCallArguments, ToolCallBlock,
    ToolCallId,
};
use crate::json::{cut32, low32, no_members, opt_text, opt_tree, with_member, Json, Tree};
use crate::media::{base64_bytes, decode_base64};
use crate::oai_chat_wire::interleaved_reasoning::{block_kind, delta, DeltaKind, Interleaving};
use crate::stream::{
    emit, events, no_counts, no_events, opt_counts, CanonicalResponse, ContentBlockKind, Counts,
    Event, ResponseId, Stop, StopReason, StreamEvent, Usage,
};
use crate::text::{same_text, texts};

verus! {

// ---------------------------------------------------------------------------
// Model: what both paths share
// ---------------------------------------------------------------------------

/// What a part says: text or reasoning. A part with a call says nothing.
pub open spec fn said(part: PartModel) -> Option<(DeltaKind, Seq<char>)> {
    if part.function_call is Some {
        None
    } else {
        match part.text {
            Some(text) => Some(
                (
                    if part.thought == Some(true) {
                        DeltaKind::Reasoning
                    } else {
                        DeltaKind::Text
                    },
                    text,
                ),
            ),
            None => None,
        }
    }
}

/// Whether any part holds a call.
pub open spec fn any_call(parts: Seq<PartModel>) -> bool {
    exists|i: int| 0 <= i < parts.len() && (#[trigger] parts[i]).function_call is Some
}

/// The stop reason of a turn that ran to its end. One with a call stopped for
/// it.
pub open spec fn natural_stop(has_call: bool) -> Stop {
    if has_call {
        Stop::ToolUse
    } else {
        Stop::EndTurn
    }
}

/// The stop reason of a finish reason. A call changes only that of a turn that
/// ran to its end, or of which no reason is known.
pub open spec fn finish_stop(reason: Option<Seq<char>>, has_call: bool) -> Stop {
    match reason {
        None => natural_stop(has_call),
        Some(r) => if r == "STOP"@ {
            natural_stop(has_call)
        } else if r == "MAX_TOKENS"@ {
            Stop::MaxTokens
        } else if r == "SAFETY"@ || r == "RECITATION"@ {
            Stop::ContentFilter
        } else {
            Stop::Other(r)
        },
    }
}

/// A token count: nothing below zero, cut to 32 bits.
pub open spec fn token_count(n: Option<i64>) -> Option<u32> {
    match n {
        Some(n) => Some(
            if n < 0 {
                0
            } else {
                low32(n as u64)
            },
        ),
        None => None,
    }
}

/// The counts of usage metadata.
pub open spec fn usage_counts(meta: UsageMetadata) -> Counts {
    Counts {
        input_tokens: token_count(meta.prompt_token_count),
        output_tokens: token_count(meta.candidates_token_count),
        reasoning_tokens: token_count(meta.thoughts_token_count),
        ..no_counts()
    }
}

pub open spec fn opt_usage_counts(meta: Option<UsageMetadata>) -> Option<Counts> {
    match meta {
        Some(m) => Some(usage_counts(m)),
        None => None,
    }
}

/// The parts of the first candidate.
pub open spec fn parts_in(resp: GenerateContentResponse) -> Seq<PartModel> {
    if resp.candidates@.len() == 0 {
        seq![]
    } else {
        part_models(resp.candidates@[0].content.parts@)
    }
}

/// The finish reason of the first candidate.
pub open spec fn finish_in(resp: GenerateContentResponse) -> Option<Seq<char>> {
    if resp.candidates@.len() == 0 {
        None
    } else {
        opt_text(resp.candidates@[0].finish_reason)
    }
}

/// The identifier of a call: the one it has, or else the given one.
pub open spec fn call_id(id: Option<Seq<char>>, fresh: Seq<char>) -> Seq<char> {
    match id {
        Some(id) => id,
        None => fresh,
    }
}

// ---------------------------------------------------------------------------
// Model: whole responses
// ---------------------------------------------------------------------------

/// Blocks gathered so far, and a run of text or reasoning that may go on.
#[verifier::ext_equal]
pub struct Gathered {
    pub done: Seq<BlockModel>,
    pub pending: Option<(DeltaKind, Seq<char>)>,
}

/// Nothing gathered.
pub open spec fn nothing_gathered() -> Gathered {
    Gathered { done: seq![], pending: None }
}

/// The block of a run.
pub open spec fn run_block(kind: DeltaKind, text: Seq<char>) -> BlockModel {
    match kind {
        DeltaKind::Text => BlockModel::Text { text },
        DeltaKind::Reasoning => BlockModel::Reasoning { text },
    }
}

impl Gathered {
    /// Ends the run.
    pub open spec fn flushed(self) -> Gathered {
        match self.pending {
            Some((kind, text)) => Gathered { done: self.done.push(run_block(kind, text)), pending: None },
            None => self,
        }
    }

    /// Goes on with a run, or starts one.
    pub open spec fn spoken(self, kind: DeltaKind, text: Seq<char>) -> Gathered {
        match self.pending {
            Some((k, before)) => if k == kind {
                Gathered { pending: Some((kind, before + text)), ..self }
            } else {
                Gathered { pending: Some((kind, text)), ..self.flushed() }
            },
            None => Gathered { pending: Some((kind, text)), ..self },
        }
    }

    /// Takes in a block that stands alone.
    pub open spec fn added(self, block: BlockModel) -> Gathered {
        Gathered { done: self.flushed().done.push(block), pending: None }
    }

    /// Takes in a part. Inline data that is no base64 only ends the run.
    pub open spec fn with_part(self, part: PartModel, fresh: Seq<char>) -> Gathered {
        match part.function_call {
            Some((name, args, id)) => self.added(
                BlockModel::ToolCall {
                    id: call_id(id, fresh),
                    name,
                    arguments: ArgumentsModel::Complete {
                        value: match args {
                            Some(value) => value,
                            None => Tree::Object(seq![]),
                        },
                    },
                },
            ),
            None => match said(part) {
                Some((kind, text)) => self.spoken(kind, text),
                None => match part.inline_data {
                    Some((media_type, text)) => match base64_bytes(text) {
                        Some(data) => self.added(
                            BlockModel::Image { source: SourceModel::Base64 { media_type, data } },
                        ),
                        None => self.flushed(),
                    },
                    None => match part.file_data {
                        Some((_, url)) => self.added(
                            BlockModel::Image { source: SourceModel::Url { url } },
                        ),
                        None => self,
                    },
                },
            },
        }
    }
}

/// What is gathered from parts, where `fresh` has an identifier for each.
pub open spec fn gathered(parts: Seq<PartModel>, fresh: Seq<Seq<char>>) -> Gathered
    decreases parts.len(),
{
    if parts.len() == 0 {
        nothing_gathered()
    } else {
        gathered(parts.drop_last(), fresh).with_part(parts.last(), fresh[parts.len() - 1])
    }
}

/// The blocks of parts.
pub open spec fn blocks_of(parts: Seq<PartModel>, fresh: Seq<Seq<char>>) -> Seq<BlockModel> {
    gathered(parts, fresh).flushed().done
}

/// The extensions that a candidate puts on its first block.
pub open spec fn candidate_extensions(candidate: Candidate) -> Seq<(Seq<char>, Tree)> {
    let m: Seq<(Seq<char>, Tree)> = if candidate.safety_ratings@.len() == 0 {
        seq![]
    } else {
        with_member(
            seq![],
            "gemini.safety_ratings"@,
            Tree::Array(rating_trees(candidate.safety_ratings@)),
        )
    };
    match candidate.citation_metadata {
        Some(citations) => with_member(m, "gemini.citation_metadata"@, citations@),
        None => m,
    }
}

pub open spec fn response_extensions(resp: GenerateContentResponse) -> Seq<(Seq<char>, Tree)> {
    if resp.candidates@.len() == 0 {
        seq![]
    } else {
        candidate_extensions(resp.candidates@[0])
    }
}

/// Blocks whose extensions are `first` on the first and none on the others.
pub open spec fn extended(blocks: Seq<ContentBlock>, first: Seq<(Seq<char>, Tree)>) -> bool {
    forall|i: int|
        0 <= i < blocks.len() ==> (#[trigger] blocks[i]).extension_members() == (if i == 0 {
            first
        } else {
            seq![]
        })
}

// ---------------------------------------------------------------------------
// Model: streams
// ---------------------------------------------------------------------------

/// Whether a part needs a block of its own.
pub open spec fn opens(at: Interleaving, part: PartModel) -> bool {
    part.function_call is Some || match said(part) {
        Some((kind, _)) => match at.open {
            Some((k, _)) => k != kind,
            None => true,
        },
        None => false,
    }
}

/// Whether a part is data alone. Nothing of it is streamed, but it ends a run.
pub open spec fn is_data(part: PartModel) -> bool {
    &&& part.function_call is None
    &&& part.text is None
    &&& part.inline_data is Some || part.file_data is Some
}

/// The open block and the next number after a part.
pub open spec fn after_part(at: Interleaving, part: PartModel) -> Interleaving {
    if is_data(part) {
        at.flushed()
    } else if !opens(at, part) {
        at
    } else {
        Interleaving {
            open: match said(part) {
                Some((kind, _)) => Some((kind, at.next)),
                None => None,
            },
            next: (at.next + 1) as u32,
        }
    }
}

/// The arguments of a call, as text.
pub open spec fn args_text(args: Option<Tree>) -> Seq<char> {
    match args {
        Some(value) => value.compact(),
        None => "{}"@,
    }
}

/// The events of a call: a whole block.
pub open spec fn call_events(
    index: u32,
    id: Seq<char>,
    name: Seq<char>,
    args: Option<Tree>,
) -> Seq<Event> {
    seq![
        Event::ContentBlockStart { index, kind: ContentBlockKind::ToolCall },
        Event::ToolCallStart { index, id, name },
        Event::ToolCallArgumentsDelta { index, json_fragment: args_text(args) },
        Event::ToolCallStop { index },
        Event::ContentBlockStop { index },
    ]
}

/// The events of a part.
pub open spec fn part_events(at: Interleaving, part: PartModel, fresh: Seq<char>) -> Seq<Event> {
    match part.function_call {
        Some((name, args, id)) => at.flush_events() + call_events(
            at.next,
            call_id(id, fresh),
            name,
            args,
        ),
        None => match said(part) {
            Some((kind, text)) => if opens(at, part) {
                at.flush_events() + seq![
                    Event::ContentBlockStart { index: at.next, kind: block_kind(kind) },
                    delta(kind, at.next, text),
                ]
            } else {
                seq![delta(kind, (at.open->0).1, text)]
            },
            None => if is_data(part) {
                at.flush_events()
            } else {
                seq![]
            },
        },
    }
}

/// The open block and the next number after parts.
pub open spec fn after_parts(at: Interleaving, parts: Seq<PartModel>) -> Interleaving
    decreases parts.len(),
{
    if parts.len() == 0 {
        at
    } else {
        after_part(after_parts(at, parts.drop_last()), parts.last())
    }
}

/// Whether there is a number for every block that parts need.
pub open spec fn numbers_fit(at: Interleaving, parts: Seq<PartModel>) -> bool
    decreases parts.len(),
{
    if parts.len() == 0 {
        true
    } else {
        let before = after_parts(at, parts.drop_last());
        numbers_fit(at, parts.drop_last()) && (opens(before, parts.last()) ==> before.next
            < u32::MAX)
    }
}

/// The events of parts.
pub open spec fn parts_events(
    at: Interleaving,
    parts: Seq<PartModel>,
    fresh: Seq<Seq<char>>,
) -> Seq<Event>
    decreases parts.len(),
{
    if parts.len() == 0 {
        seq![]
    } else {
        let before = parts.drop_last();
        parts_events(at, before, fresh) + part_events(
            after_parts(at, before),
            parts.last(),
            fresh[parts.len() - 1],
        )
    }
}

/// The model of `StreamState`.
#[verifier::ext_equal]
pub struct Session {
    pub model: Seq<char>,
    pub response_id: Seq<char>,
    pub started: bool,
    pub stopped: bool,
    pub at: Interleaving,
    pub has_call: bool,
    pub usage: Option<UsageMetadata>,
}

/// A stream of which nothing has arrived.
pub open spec fn new_session(model: Seq<char>, response_id: Seq<char>) -> Session {
    Session {
        model,
        response_id,
        started: false,
        stopped: false,
        at: Interleaving { open: None, next: 0 },
        has_call: false,
        usage: None,
    }
}

/// What a response of the stream brings.
#[verifier::ext_equal]
pub struct Chunk {
    pub parts: Seq<PartModel>,
    pub finish: Option<Seq<char>>,
    pub usage: Option<UsageMetadata>,
    pub feedback: Option<Tree>,
}

pub open spec fn chunk_of(resp: GenerateContentResponse) -> Chunk {
    Chunk {
        parts: parts_in(resp),
        finish: finish_in(resp),
        usage: resp.usage_metadata,
        feedback: match resp.prompt_feedback {
            Some(feedback) => Some(feedback.tree()),
            None => None,
        },
    }
}

/// The event of what the provider says of the prompt.
pub open spec fn feedback_events(feedback: Option<Tree>) -> Seq<Event> {
    match feedback {
        Some(payload) => seq![
            Event::RawProviderEvent { name: "gemini.prompt_feedback"@, payload },
        ],
        None => seq![],
    }
}

/// The events that end the message and the response.
pub open spec fn ending(at: Interleaving, stop: Stop, usage: Option<UsageMetadata>) -> Seq<Event> {
    at.flush_events() + seq![
        Event::MessageStop { stop_reason: stop, stop_sequence: None },
        Event::ResponseStop { usage: opt_usage_counts(usage) },
    ]
}

impl Session {
    /// The events that announce the response and its message.
    pub open spec fn opening(self, now: u64) -> Seq<Event> {
        if self.started {
            seq![]
        } else {
            seq![
                Event::ResponseStart {
                    id: self.response_id,
                    model: self.model,
                    created_at_unix: now,
                },
                Event::MessageStart { role: MessageRole::Assistant },
            ]
        }
    }

    /// The usage known after a chunk: the latest reported.
    pub open spec fn latest_usage(self, chunk: Chunk) -> Option<UsageMetadata> {
        if chunk.usage is Some {
            chunk.usage
        } else {
            self.usage
        }
    }

    /// The state after a chunk. A finish reason ends the stream; what comes
    /// after it is ignored.
    pub open spec fn after(self, chunk: Chunk) -> Session {
        if self.stopped {
            self
        } else {
            let at = after_parts(self.at, chunk.parts);
            let has_call = self.has_call || any_call(chunk.parts);
            if chunk.finish is Some {
                Session {
                    started: true,
                    stopped: true,
                    at: at.flushed(),
                    has_call,
                    usage: None,
                    ..self
                }
            } else {
                Session { started: true, at, has_call, usage: self.latest_usage(chunk), ..self }
            }
        }
    }

    /// The events of a chunk.
    pub open spec fn chunk_events(
        self,
        chunk: Chunk,
        fresh: Seq<Seq<char>>,
        now: u64,
    ) -> Seq<Event> {
        if self.stopped {
            seq![]
        } else {
            let body = self.opening(now) + feedback_events(chunk.feedback) + parts_events(
                self.at,
                chunk.parts,
                fresh,
            );
            match chunk.finish {
                Some(reason) => body + ending(
                    after_parts(self.at, chunk.parts),
                    finish_stop(Some(reason), self.has_call || any_call(chunk.parts)),
                    self.latest_usage(chunk),
                ),
                None => body,
            }
        }
    }

    /// The state after the end of the upstream.
    pub open spec fn finalized(self) -> Session {
        if !self.started || self.stopped {
            self
        } else {
            Session { stopped: true, at: self.at.flushed(), usage: None, ..self }
        }
    }

    /// The events at the end of the upstream: what is still owed.
    pub open spec fn final_events(self) -> Seq<Event> {
        if !self.started || self.stopped {
            seq![]
        } else {
            ending(self.at, finish_stop(None, self.has_call), self.usage)
        }
    }
}

// ---------------------------------------------------------------------------
// Whole responses
// ---------------------------------------------------------------------------

/// How many identifiers a response may need: one for each part of the first
/// candidate.
pub fn identifiers_needed(resp: &GenerateContentResponse) -> (n: usize)
    ensures
        n == parts_in(*resp).len(),
{
    if resp.candidates.len() == 0 {
        0
    } else {
        resp.candidates[0].content.parts.len()
    }
}

/// Reads a whole response. `fresh` has an identifier for each part of the
/// first candidate; a call without one takes it.
pub fn parse_unary(
    resp: GenerateContentResponse,
    model: &str,
    id: ResponseId,
    fresh: &Vec<String>,
) -> (canonical: CanonicalResponse)
    requires
        fresh@.len() >= parts_in(resp).len(),
    ensures
        canonical.id == id,
        canonical.model@ == model@,
        block_models(canonical.content@) == blocks_of(parts_in(resp), texts(fresh@)),
        extended(canonical.content@, response_extensions(resp)),
        canonical.stop_reason@ == finish_stop(finish_in(resp), any_call(parts_in(resp))),
        canonical.stop_sequence is None,
        opt_counts(canonical.usage) == opt_usage_counts(resp.usage_metadata),
{
    let usage = match resp.usage_metadata {
        Some(meta) => Some(usage_metadata_to_usage(meta)),
        None => None,
    };
    if resp.candidates.len() == 0 {
        let content: Vec<ContentBlock> = Vec::new();
        assert(block_models(content@) =~= blocks_of(parts_in(resp), texts(fresh@)));
        return CanonicalResponse {
            id,
            model: model.to_owned(),
            content,
            stop_reason: map_finish_reason(&None, false),
            stop_sequence: None,
            usage,
        };
    }
    let candidate = &resp.candidates[0];
    let mut content = candidate_to_blocks(candidate, fresh);
    let has_call = has_function_call(&candidate.content.parts);
    proof {
        lemma_gathered_is_supported(part_models(candidate.content.parts@), texts(fresh@));
        let models = block_models(content@);
        assert forall|i: int| 0 <= i < content@.len() implies !(
        (#[trigger] content@[i])@ is Unsupported) by {
            assert(models[i] == content@[i]@);
        }
    }
    attach_extensions(&mut content, candidate);
    CanonicalResponse {
        id,
        model: model.to_owned(),
        content,
        stop_reason: map_finish_reason(&candidate.finish_reason, has_call),
        stop_sequence: None,
        usage,
    }
}

fn has_function_call(parts: &Vec<Part>) -> (found: bool)
    ensures
        found == any_call(part_models(parts@)),
{
    let ghost models = part_models(parts@);
    let mut i: usize = 0;
    while i < parts.len()
        invariant
            i <= parts@.len(),
            models == part_models(parts@),
            forall|k: int| 0 <= k < i ==> (#[trigger] models[k]).function_call is None,
        decreases parts.len() - i,
    {
        assert(models[i as int] == parts@[i as int]@);
        if parts[i].function_call.is_some() {
            return true;
        }
        i = i + 1;
    }
    false
}

/// Adds a block without extensions.
fn push_block(blocks: &mut Vec<ContentBlock>, block: ContentBlock)
    requires
        extended(old(blocks)@, seq![]),
        block.extension_members() == Seq::<(Seq<char>, Tree)>::empty(),
    ensures
        extended(final(blocks)@, seq![]),
        block_models(final(blocks)@) == block_models(old(blocks)@).push(block@),
{
    blocks.push(block);
    assert(block_models(blocks@) =~= block_models(old(blocks)@).push(block@));
}

/// Adds the block of a run.
fn push_run(blocks: &mut Vec<ContentBlock>, kind: DeltaKind, text: String)
    requires
        extended(old(blocks)@, seq![]),
    ensures
        extended(final(blocks)@, seq![]),
        block_models(final(blocks)@) == block_models(old(blocks)@).push(run_block(kind, text@)),
{
    let block = match kind {
        DeltaKind::Text => ContentBlock::Text(
            TextBlock { text, extensions: ExtensionMap::new() },
        ),
        DeltaKind::Reasoning => ContentBlock::Reasoning(
            ReasoningBlock { text, extensions: ExtensionMap::new() },
        ),
    };
    push_block(blocks, block);
}

/// The text of an optional run.
pub open spec fn run_text(pending: Option<(DeltaKind, String)>) -> Option<(DeltaKind, Seq<char>)> {
    match pending {
        Some((kind, text)) => Some((kind, text@)),
        None => None,
    }
}

/// Ends a run.
fn flush(blocks: &mut Vec<ContentBlock>, pending: &mut Option<(DeltaKind, String)>)
    requires
        extended(old(blocks)@, seq![]),
    ensures
        extended(final(blocks)@, seq![]),
        run_text(*final(pending)) is None,
        (Gathered { done: block_models(final(blocks)@), pending: None }) == (Gathered {
            done: block_models(old(blocks)@),
            pending: run_text(*old(pending)),
        }).flushed(),
{
    let run = pending.take();
    match run {
        Some((kind, text)) => push_run(blocks, kind, text),
        None => {},
    }
}

fn call_block(call: &FunctionCall, fresh: &str) -> (block: ContentBlock)
    ensures
        block.extension_members() == Seq::<(Seq<char>, Tree)>::empty(),
        block@ == (BlockModel::ToolCall {
            id: call_id(opt_text(call.id), fresh@),
            name: call.name@,
            arguments: ArgumentsModel::Complete {
                value: match opt_tree(call.args) {
                    Some(value) => value,
                    None => Tree::Object(seq![]),
                },
            },
        }),
{
    let id = match &call.id {
        Some(id) => ToolCallId::from_provider(id.as_str()),
        None => ToolCallId::from_provider(fresh),
    };
    let value = match &call.args {
        Some(args) => args.duplicate(),
        None => Json::Object(no_members()),
    };
    ContentBlock::ToolCall(
        ToolCallBlock {
            id,
            name: call.name.clone(),
            arguments: ToolCallArguments::Complete { value },
            extensions: ExtensionMap::new(),
        },
    )
}

fn image_block(source: BinarySource) -> (block: ContentBlock)
    ensures
        block.extension_members() == Seq::<(Seq<char>, Tree)>::empty(),
        block@ == (BlockModel::Image { source: source@ }),
{
    ContentBlock::Image(ImageBlock { source, extensions: ExtensionMap::new() })
}

fn gather_part(
    part: &Part,
    fresh: &str,
    blocks: &mut Vec<ContentBlock>,
    pending: &mut Option<(DeltaKind, String)>,
)
    requires
        extended(old(blocks)@, seq![]),
    ensures
        extended(final(blocks)@, seq![]),
        (Gathered { done: block_models(final(blocks)@), pending: run_text(*final(pending)) }) == (
        Gathered {
            done: block_models(old(blocks)@),
            pending: run_text(*old(pending)),
        }).with_part(part@, fresh@),
{
    if let Some(call) = &part.function_call {
        flush(blocks, pending);
        push_block(blocks, call_block(call, fresh));
        return;
    }
    if let Some(text) = &part.text {
        let kind = match part.thought {
            Some(true) => DeltaKind::Reasoning,
            _ => DeltaKind::Text,
        };
        let run = pending.take();
        match run {
            Some((k, before)) => {
                if k == kind {
                    let mut all = before;
                    all.append(text.as_str());
                    *pending = Some((kind, all));
                } else {
                    push_run(blocks, k, before);
                    *pending = Some((kind, text.clone()));
                }
            },
            None => {
                *pending = Some((kind, text.clone()));
            },
        }
        return;
    }
    if let Some(inline) = &part.inline_data {
        flush(blocks, pending);
        if let Some(data) = decode_base64(inline.data.as_str()) {
            push_block(
                blocks,
                image_block(
                    BinarySource::Base64 { media_type: inline.mime_type.clone(), data },
                ),
            );
        }
        return;
    }
    if let Some(file) = &part.file_data {
        flush(blocks, pending);
        push_block(blocks, image_block(BinarySource::Url { url: file.file_uri.clone() }));
    }
}

/// Gathers the blocks of a candidate.
fn candidate_to_blocks(candidate: &Candidate, fresh: &Vec<String>) -> (blocks: Vec<ContentBlock>)
    requires
        fresh@.len() >= candidate.content.parts@.len(),
    ensures
        extended(blocks@, seq![]),
        block_models(blocks@) == blocks_of(
            part_models(candidate.content.parts@),
            texts(fresh@),
        ),
{
    let parts = &candidate.content.parts;
    let ghost models = part_models(parts@);
    let mut blocks: Vec<ContentBlock> = Vec::new();
    let mut pending: Option<(DeltaKind, String)> = None;
    let mut i: usize = 0;
    assert(block_models(blocks@) =~= seq![]);
    while i < parts.len()
        invariant
            i <= parts@.len(),
            parts@.len() <= fresh@.len(),
            models == part_models(parts@),
            extended(blocks@, seq![]),
            (Gathered { done: block_models(blocks@), pending: run_text(pending) }) == gathered(
                models.take(i as int),
                texts(fresh@),
            ),
        decreases parts.len() - i,
    {
        proof {
            assert(models.take(i + 1).drop_last() =~= models.take(i as int));
            assert(models.take(i + 1).last() == parts@[i as int]@);
            assert(texts(fresh@)[i as int] == fresh@[i as int]@);
        }
        gather_part(&parts[i], fresh[i].as_str(), &mut blocks, &mut pending);
        i = i + 1;
    }
    assert(models.take(i as int) =~= models);
    flush(&mut blocks, &mut pending);
    blocks
}

/// Puts the ratings and citations of a candidate on its first block.
fn attach_extensions(blocks: &mut Vec<ContentBlock>, candidate: &Candidate)
    requires
        extended(old(blocks)@, seq![]),
        forall|i: int|
            0 <= i < old(blocks)@.len() ==> !((#[trigger] old(blocks)@[i])@ is Unsupported),
    ensures
        extended(final(blocks)@, candidate_extensions(*candidate)),
        block_models(final(blocks)@) == block_models(old(blocks)@),
{
    if blocks.len() == 0 {
        return;
    }
    let ghost before = blocks@;
    if candidate.safety_ratings.len() > 0 {
        let value = ratings_to_json(&candidate.safety_ratings);
        blocks[0].add_extension("gemini.safety_ratings", value);
    }
    if let Some(citations) = &candidate.citation_metadata {
        blocks[0].add_extension("gemini.citation_metadata", citations.duplicate());
    }
    assert(block_models(blocks@) =~= block_models(before));
}

/// Reads a finish reason.
fn map_finish_reason(reason: &Option<String>, has_call: bool) -> (stop: StopReason)
    ensures
        stop@ == finish_stop(opt_text(*reason), has_call),
{
    let natural = if has_call {
        StopReason::ToolUse
    } else {
        StopReason::EndTurn
    };
    match reason {
        None => natural,
        Some(r) => {
            let r = r.as_str();
            if same_text(r, "STOP") {
                natural
            } else if same_text(r, "MAX_TOKENS") {
                StopReason::MaxTokens
            } else if same_text(r, "SAFETY") || same_text(r, "RECITATION") {
                StopReason::ContentFilter
            } else {
                StopReason::Other(r.to_owned())
            }
        },
    }
}

fn to_tokens(n: Option<i64>) -> (count: Option<u32>)
    ensures
        count == token_count(n),
{
    match n {
        Some(n) => if n < 0 {
            Some(0)
        } else {
            Some(cut32(n as u64))
        },
        None => None,
    }
}

fn usage_metadata_to_usage(meta: UsageMetadata) -> (usage: Usage)
    ensures
        usage@ == usage_counts(meta),
{
    let mut usage = Usage::default();
    usage.input_tokens = to_tokens(meta.prompt_token_count);
    usage.output_tokens = to_tokens(meta.candidates_token_count);
    usage.reasoning_tokens = to_tokens(meta.thoughts_token_count);
    usage
}

// ---------------------------------------------------------------------------
// Streams
// ---------------------------------------------------------------------------

#[derive(Clone, Copy, Debug, PartialEq, Eq, Structural)]
enum OpenBlock {
    Text { index: u32 },
    Reasoning { index: u32 },
}

/// Turns the responses of a stream into canonical events.
#[derive(Debug)]
pub struct StreamState {
    model: String,
    response_id: String,
    started: bool,
    stopped: bool,
    next_block_index: u32,
    open_block: Option<OpenBlock>,
    has_tool_call: bool,
    last_usage: Option<UsageMetadata>,
}

impl StreamState {
    spec fn at(&self) -> Interleaving {
        Interleaving {
            open: match self.open_block {
                Some(OpenBlock::Text { index }) => Some((DeltaKind::Text, index)),
                Some(OpenBlock::Reasoning { index }) => Some((DeltaKind::Reasoning, index)),
                None => None,
            },
            next: self.next_block_index,
        }
    }

    pub closed spec fn view(&self) -> Session {
        Session {
            model: self.model@,
            response_id: self.response_id@,
            started: self.started,
            stopped: self.stopped,
            at: self.at(),
            has_call: self.has_tool_call,
            usage: self.last_usage,
        }
    }

    pub fn new(model: String, response_id: ResponseId) -> (state: StreamState)
        ensures
            state@ == new_session(model@, response_id.0@),
    {
        StreamState {
            model,
            response_id: response_id.0,
            started: false,
            stopped: false,
            next_block_index: 0,
            open_block: None,
            has_tool_call: false,
            last_usage: None,
        }
    }

    /// Handles a response of the stream, received at `now`. `fresh` has an
    /// identifier for each part of the first candidate; a call without one
    /// takes it. There is no result, and no change, where the block numbers
    /// would run out.
    pub fn handle(&mut self, resp: GenerateContentResponse, fresh: &Vec<String>, now: u64) -> (out:
        Option<Vec<StreamEvent>>)
        requires
            fresh@.len() >= parts_in(resp).len(),
        ensures
            match out {
                Some(out) => {
                    &&& old(self)@.stopped || numbers_fit(old(self)@.at, parts_in(resp))
                    &&& final(self)@ == old(self)@.after(chunk_of(resp))
                    &&& events(out@) == old(self)@.chunk_events(
                        chunk_of(resp),
                        texts(fresh@),
                        now,
                    )
                },
                None => {
                    &&& !old(self)@.stopped
                    &&& !numbers_fit(old(self)@.at, parts_in(resp))
                    &&& final(self)@ == old(self)@
                },
            },
    {
        let mut out = no_events();
        if self.stopped {
            return Some(out);
        }
        let ghost start = self@;
        let ghost chunk = chunk_of(resp);
        if resp.candidates.len() > 0 {
            if !self.has_numbers_for(&resp.candidates[0].content.parts) {
                return None;
            }
        }
        if !self.started {
            self.started = true;
            emit(
                &mut out,
                StreamEvent::ResponseStart {
                    id: ResponseId(self.response_id.clone()),
                    model: self.model.clone(),
                    created_at_unix: now,
                },
            );
            emit(&mut out, StreamEvent::MessageStart { role: MessageRole::Assistant });
        }
        assert(events(out@) =~= start.opening(now));
        if let Some(feedback) = &resp.prompt_feedback {
            emit(
                &mut out,
                StreamEvent::RawProviderEvent {
                    name: "gemini.prompt_feedback".to_owned(),
                    payload: feedback.to_json(),
                },
            );
        }
        assert(events(out@) =~= start.opening(now) + feedback_events(chunk.feedback));
        if resp.usage_metadata.is_some() {
            self.last_usage = resp.usage_metadata;
        }
        if resp.candidates.len() == 0 {
            assert(!any_call(chunk.parts));
            assert(events(out@) =~= start.chunk_events(chunk, texts(fresh@), now));
            return Some(out);
        }
        let candidate = &resp.candidates[0];
        self.handle_parts(&candidate.content.parts, fresh, &mut out);
        if candidate.finish_reason.is_some() {
            let stop = map_finish_reason(&candidate.finish_reason, self.has_tool_call);
            self.finish(stop, &mut out);
        }
        Some(out)
    }

    /// Whether there is a number for every block that the parts need.
    fn has_numbers_for(&self, parts: &Vec<Part>) -> (fit: bool)
        ensures
            fit == numbers_fit(self@.at, part_models(parts@)),
    {
        let ghost models = part_models(parts@);
        let ghost start = self.at();
        let mut next: u32 = self.next_block_index;
        let mut open: Option<DeltaKind> = match self.open_block {
            Some(OpenBlock::Text { .. }) => Some(DeltaKind::Text),
            Some(OpenBlock::Reasoning { .. }) => Some(DeltaKind::Reasoning),
            None => None,
        };
        let mut i: usize = 0;
        while i < parts.len()
            invariant
                i <= parts@.len(),
                models == part_models(parts@),
                start == self@.at,
                numbers_fit(start, models.take(i as int)),
                after_parts(start, models.take(i as int)).next == next,
                open == (match after_parts(start, models.take(i as int)).open {
                    Some((kind, _)) => Some(kind),
                    None => None,
                }),
            decreases parts.len() - i,
        {
            proof {
                assert(models.take(i + 1).drop_last() =~= models.take(i as int));
                assert(models.take(i + 1).last() == parts@[i as int]@);
            }
            let part = &parts[i];
            let kind = match part.thought {
                Some(true) => DeltaKind::Reasoning,
                _ => DeltaKind::Text,
            };
            let called = part.function_call.is_some();
            let needed = called || (part.text.is_some() && match open {
                Some(k) => k != kind,
                None => true,
            });
            if needed {
                if next == u32::MAX {
                    proof {
                        lemma_numbers_fit_prefix(start, models, i + 1);
                    }
                    return false;
                }
                next = next + 1;
                open = if called {
                    None
                } else {
                    Some(kind)
                };
            } else if part.text.is_none() && (part.inline_data.is_some() || part.file_data.is_some())
                {
                open = None;
            }
            i = i + 1;
        }
        assert(models.take(i as int) =~= models);
        true
    }

    fn handle_parts(&mut self, parts: &Vec<Part>, fresh: &Vec<String>, out: &mut Vec<StreamEvent>)
        requires
            fresh@.len() >= parts@.len(),
            numbers_fit(old(self)@.at, part_models(parts@)),
        ensures
            final(self)@ == (Session {
                at: after_parts(old(self)@.at, part_models(parts@)),
                has_call: old(self)@.has_call || any_call(part_models(parts@)),
                ..old(self)@
            }),
            events(final(out)@) == events(old(out)@) + parts_events(
                old(self)@.at,
                part_models(parts@),
                texts(fresh@),
            ),
    {
        let ghost models = part_models(parts@);
        let ghost start = self@;
        let ghost before = events(out@);
        let mut i: usize = 0;
        assert(before + parts_events(start.at, models.take(0), texts(fresh@)) =~= before);
        while i < parts.len()
            invariant
                i <= parts@.len(),
                parts@.len() <= fresh@.len(),
                models == part_models(parts@),
                numbers_fit(start.at, models),
                self@ == (Session {
                    at: after_parts(start.at, models.take(i as int)),
                    has_call: start.has_call || any_call(models.take(i as int)),
                    ..start
                }),
                events(out@) == before + parts_events(
                    start.at,
                    models.take(i as int),
                    texts(fresh@),
                ),
            decreases parts.len() - i,
        {
            proof {
                assert(models.take(i + 1).drop_last() =~= models.take(i as int));
                assert(models.take(i + 1).last() == parts@[i as int]@);
                assert(texts(fresh@)[i as int] == fresh@[i as int]@);
                lemma_numbers_fit_prefix(start.at, models, i + 1);
                lemma_any_call_step(models, i as int);
            }
            self.handle_part(&parts[i], fresh[i].as_str(), out);
            assert(events(out@) =~= before + parts_events(
                start.at,
                models.take(i + 1),
                texts(fresh@),
            ));
            i = i + 1;
        }
        assert(models.take(i as int) =~= models);
    }

    fn handle_part(&mut self, part: &Part, fresh: &str, out: &mut Vec<StreamEvent>)
        requires
            opens(old(self)@.at, part@) ==> old(self)@.at.next < u32::MAX,
        ensures
            final(self)@ == (Session {
                at: after_part(old(self)@.at, part@),
                has_call: old(self)@.has_call || part@.function_call is Some,
                ..old(self)@
            }),
            events(final(out)@) == events(old(out)@) + part_events(
                old(self)@.at,
                part@,
                fresh@,
            ),
    {
        let ghost start = self@;
        let ghost before = events(out@);
        if let Some(call) = &part.function_call {
            self.close_open_block(out);
            self.emit_tool_call(call, fresh, out);
        } else if let Some(text) = &part.text {
            match part.thought {
                Some(true) => {
                    let index = self.ensure_block(DeltaKind::Reasoning, out);
                    emit(out, StreamEvent::ReasoningDelta { index, text: text.clone() });
                },
                _ => {
                    let index = self.ensure_block(DeltaKind::Text, out);
                    emit(out, StreamEvent::TextDelta { index, text: text.clone() });
                },
            }
        } else if part.inline_data.is_some() || part.file_data.is_some() {
            self.close_open_block(out);
        }
        assert(events(out@) =~= before + part_events(start.at, part@, fresh@));
    }

    /// Makes sure that a block of the kind is open, and gives its number.
    fn ensure_block(&mut self, kind: DeltaKind, out: &mut Vec<StreamEvent>) -> (index: u32)
        requires
            old(self)@.at.open is Some && (old(self)@.at.open->0).0 == kind
                || old(self)@.at.next < u32::MAX,
        ensures
            match old(self)@.at.open {
                Some((k, i)) if k == kind => {
                    &&& index == i
                    &&& final(self)@ == old(self)@
                    &&& events(final(out)@) == events(old(out)@)
                },
                _ => {
                    &&& index == old(self)@.at.next
                    &&& final(self)@ == (Session {
                        at: Interleaving { open: Some((kind, index)), next: (index + 1) as u32 },
                        ..old(self)@
                    })
                    &&& events(final(out)@) == events(old(out)@) + old(self)@.at.flush_events()
                        + seq![Event::ContentBlockStart { index, kind: block_kind(kind) }]
                },
            },
    {
        match self.open_block {
            Some(OpenBlock::Text { index }) => {
                if kind == DeltaKind::Text {
                    return index;
                }
            },
            Some(OpenBlock::Reasoning { index }) => {
                if kind == DeltaKind::Reasoning {
                    return index;
                }
            },
            None => {},
        }
        let ghost before = events(out@);
        let ghost start = self@;
        self.close_open_block(out);
        let index = self.alloc_index();
        match kind {
            DeltaKind::Text => {
                emit(out, StreamEvent::ContentBlockStart { index, kind: ContentBlockKind::Text });
                self.open_block = Some(OpenBlock::Text { index });
            },
            DeltaKind::Reasoning => {
                emit(
                    out,
                    StreamEvent::ContentBlockStart { index, kind: ContentBlockKind::Reasoning },
                );
                self.open_block = Some(OpenBlock::Reasoning { index });
            },
        }
        assert(events(out@) =~= before + start.at.flush_events() + seq![
            Event::ContentBlockStart { index, kind: block_kind(kind) },
        ]);
        index
    }

    fn close_open_block(&mut self, out: &mut Vec<StreamEvent>)
        ensures
            final(self)@ == (Session { at: old(self)@.at.flushed(), ..old(self)@ }),
            events(final(out)@) == events(old(out)@) + old(self)@.at.flush_events(),
    {
        let ghost before = events(out@);
        match self.open_block {
            Some(OpenBlock::Text { index }) | Some(OpenBlock::Reasoning { index }) => {
                emit(out, StreamEvent::ContentBlockStop { index });
                self.open_block = None;
            },
            None => {},
        }
        assert(events(out@) =~= before + old(self)@.at.flush_events());
    }

    fn emit_tool_call(&mut self, call: &FunctionCall, fresh: &str, out: &mut Vec<StreamEvent>)
        requires
            old(self)@.at.next < u32::MAX,
        ensures
            final(self)@ == (Session {
                at: Interleaving { next: (old(self)@.at.next + 1) as u32, ..old(self)@.at },
                has_call: true,
                ..old(self)@
            }),
            events(final(out)@) == events(old(out)@) + call_events(
                old(self)@.at.next,
                call_id(opt_text(call.id), fresh@),
                call.name@,
                opt_tree(call.args),
            ),
    {
        let ghost before = events(out@);
        self.has_tool_call = true;
        let index = self.alloc_index();
        let id = match &call.id {
            Some(id) => ToolCallId::from_provider(id.as_str()),
            None => ToolCallId::from_provider(fresh),
        };
        let ghost id_text = id.0@;
        emit(out, StreamEvent::ContentBlockStart { index, kind: ContentBlockKind::ToolCall });
        emit(out, StreamEvent::ToolCallStart { index, id, name: call.name.clone() });
        let json_fragment = match &call.args {
            Some(value) => value.to_text(),
            None => "{}".to_owned(),
        };
        emit(out, StreamEvent::ToolCallArgumentsDelta { index, json_fragment });
        emit(out, StreamEvent::ToolCallStop { index });
        emit(out, StreamEvent::ContentBlockStop { index });
        assert(events(out@) =~= before + call_events(
            index,
            id_text,
            call.name@,
            opt_tree(call.args),
        ));
    }

    fn alloc_index(&mut self) -> (index: u32)
        requires
            old(self)@.at.next < u32::MAX,
        ensures
            index == old(self)@.at.next,
            final(self)@ == (Session {
                at: Interleaving { next: (old(self)@.at.next + 1) as u32, ..old(self)@.at },
                ..old(self)@
            }),
    {
        let index = self.next_block_index;
        self.next_block_index = self.next_block_index + 1;
        index
    }

    /// Ends the message and the response.
    fn finish(&mut self, stop_reason: StopReason, out: &mut Vec<StreamEvent>)
        ensures
            final(self)@ == (Session {
                stopped: true,
                at: old(self)@.at.flushed(),
                usage: None,
                ..old(self)@
            }),
            events(final(out)@) == events(old(out)@) + ending(
                old(self)@.at,
                stop_reason@,
                old(self)@.usage,
            ),
    {
        let ghost before = events(out@);
        let ghost start = self@;
        let ghost stop = stop_reason@;
        self.close_open_block(out);
        emit(out, StreamEvent::MessageStop { stop_reason, stop_sequence: None });
        let usage = match self.last_usage {
            Some(meta) => Some(usage_metadata_to_usage(meta)),
            None => None,
        };
        emit(out, StreamEvent::ResponseStop { usage });
        self.last_usage = None;
        self.stopped = true;
        assert(events(out@) =~= before + ending(start.at, stop, start.usage));
    }

    /// Ends the stream where the upstream ended without a finish reason. A
    /// stream that never started owes nothing.
    pub fn finalize(&mut self) -> (out: Vec<StreamEvent>)
        ensures
            final(self)@ == old(self)@.finalized(),
            events(out@) == old(self)@.final_events(),
    {
        let mut out = no_events();
        if !self.started || self.stopped {
            return out;
        }
        let stop = map_finish_reason(&None, self.has_tool_call);
        self.finish(stop, &mut out);
        out
    }
}

proof fn lemma_gathered_is_supported(parts: Seq<PartModel>, fresh: Seq<Seq<char>>)
    ensures
        forall|i: int|
            0 <= i < gathered(parts, fresh).done.len() ==> !((#[trigger] gathered(
                parts,
                fresh,
            ).done[i]) is Unsupported),
        forall|i: int|
            0 <= i < blocks_of(parts, fresh).len() ==> !((#[trigger] blocks_of(
                parts,
                fresh,
            )[i]) is Unsupported),
    decreases parts.len(),
{
    if parts.len() > 0 {
        lemma_gathered_is_supported(parts.drop_last(), fresh);
    }
}

proof fn lemma_numbers_fit_prefix(at: Interleaving, parts: Seq<PartModel>, n: int)
    requires
        0 <= n <= parts.len(),
    ensures
        numbers_fit(at, parts) ==> numbers_fit(at, parts.take(n)),
    decreases parts.len() - n,
{
    if n == parts.len() {
        assert(parts.take(n) =~= parts);
    } else {
        lemma_numbers_fit_prefix(at, parts, n + 1);
        assert(parts.take(n + 1).drop_last() =~= parts.take(n));
    }
}

proof fn lemma_any_call_step(parts: Seq<PartModel>, n: int)
    requires
        0 <= n < parts.len(),
    ensures
        any_call(parts.take(n + 1)) == (any_call(parts.take(n)) || parts[n].function_call is Some),
{
    let before = parts.take(n);
    let after = parts.take(n + 1);
    assert(after[n] == parts[n]);
    if any_call(before) {
        let i = choose|i: int| 0 <= i < before.len() && (#[trigger] before[i]).function_call is Some;
        assert(after[i] == before[i]);
    }
    if any_call(after) {
        let i = choose|i: int| 0 <= i < after.len() && (#[trigger] after[i]).function_call is Some;
        if i < n {
            assert(before[i] == after[i]);
        }
    }
}

} // verus!
