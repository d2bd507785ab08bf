//! The canonical request model: what a frontend hands over and every
//! provider encoder reads.
use vstd::prelude::*;

use crate::json::{member, members, put, with_member, Json, Tree};
use crate::text::same_text;

verus! {

/// Identifies one request.
#[derive(Clone, Debug, PartialEq)]
pub struct RequestId(pub String);

/// The model name that a frontend asked for.
#[derive(Clone, Debug, PartialEq)]
pub struct FrontendModel(pub String);

/// Identifies one tool call across the request and the response.
#[derive(Clone, Debug, PartialEq)]
pub struct ToolCallId(pub String);

impl ToolCallId {
    /// The identifier as the provider wrote it.
    pub fn from_provider(id: &str) -> (tool_call_id: ToolCallId)
        ensures
            tool_call_id.0@ == id@,
    {
        ToolCallId(id.to_owned())
    }
}

/// The inbound dialect.
#[derive(Clone, Copy, Debug, PartialEq, Eq, Structural)]
pub enum FrontendKind {
    AnthropicMessages,
    OpenAiChat,
    OpenAiResponses,
}

/// Where a request came from.
#[derive(Clone, Debug, PartialEq)]
pub struct FrontendInfo {
    pub kind: FrontendKind,
    pub requested_model: FrontendModel,
}

/// Who speaks in a message.
#[derive(Clone, Copy, Debug, PartialEq, Eq, Structural)]
pub enum MessageRole {
    User,
    Assistant,
    Tool,
    System,
}

/// Which dialect a system instruction came from.
#[derive(Clone, Copy, Debug, PartialEq, Eq, Structural)]
pub enum SystemSource {
    AnthropicSystem,
    OpenAiSystem,
    OpenAiDeveloper,
}

/// How much reasoning is asked for.
#[derive(Clone, Copy, Debug, PartialEq, Eq, Structural)]
pub enum ReasoningEffort {
    Minimal,
    Low,
    Medium,
    High,
    Xhigh,
    Max,
}

/// Provider-specific members that travel with a block.
#[derive(Clone, Debug, PartialEq)]
pub struct ExtensionMap {
    pub entries: Vec<(String, Json)>,
}

impl ExtensionMap {
    /// The members held.
    pub open spec fn view(&self) -> Seq<(Seq<char>, Tree)> {
        members(self.entries@)
    }

    pub fn new() -> (map: ExtensionMap)
        ensures
            map@ == Seq::<(Seq<char>, Tree)>::empty(),
    {
        let map = ExtensionMap { entries: Vec::new() };
        assert(map@ =~= Seq::<(Seq<char>, Tree)>::empty());
        map
    }

    pub fn insert(&mut self, key: &str, value: Json)
        ensures
            final(self)@ == with_member(old(self)@, key@, value@),
    {
        put(&mut self.entries, key, value);
    }

    pub fn get(&self, key: &str) -> (value: Option<&Json>)
        ensures
            match value {
                Some(v) => member(self@, key@) == Some(v@),
                None => member(self@, key@) is None,
            },
    {
        let mut i: usize = 0;
        while i < self.entries.len()
            invariant
                i <= self.entries@.len(),
                crate::json::position_from(self@, key@, 0) == crate::json::position_from(
                    self@,
                    key@,
                    i as int,
                ),
            decreases self.entries.len() - i,
        {
            assert(self@[i as int] == (
                self.entries@[i as int].0@,
                self.entries@[i as int].1@,
            ));
            let entry = &self.entries[i];
            if same_text(entry.0.as_str(), key) {
                return Some(&entry.1);
            }
            i = i + 1;
        }
        None
    }

    pub fn is_empty(&self) -> (empty: bool)
        ensures
            empty == (self@.len() == 0),
    {
        self.entries.len() == 0
    }
}

/// Where binary content comes from.
#[derive(Clone, Debug, PartialEq)]
pub enum BinarySource {
    Base64 { media_type: String, data: Vec<u8> },
    Bytes { media_type: String, data: Vec<u8> },
    Url { url: String },
    ProviderFileId { file_id: String },
}

#[derive(Clone, Debug, PartialEq)]
pub struct TextBlock {
    pub text: String,
    pub extensions: ExtensionMap,
}

#[derive(Clone, Debug, PartialEq)]
pub struct ImageBlock {
    pub source: BinarySource,
    pub extensions: ExtensionMap,
}

#[derive(Clone, Debug, PartialEq)]
pub struct AudioBlock {
    pub source: BinarySource,
    pub extensions: ExtensionMap,
}

#[derive(Clone, Debug, PartialEq)]
pub struct FileBlock {
    pub source: BinarySource,
    pub extensions: ExtensionMap,
}

/// The arguments of a tool call: a finished value, or the text so far.
#[derive(Clone, Debug, PartialEq)]
pub enum ToolCallArguments {
    Complete { value: Json },
    Streaming { data: String },
}

#[derive(Clone, Debug, PartialEq)]
pub struct ToolCallBlock {
    pub id: ToolCallId,
    pub name: String,
    pub arguments: ToolCallArguments,
    pub extensions: ExtensionMap,
}

#[derive(Clone, Debug, PartialEq)]
pub struct ToolResultBlock {
    pub tool_call_id: ToolCallId,
    pub content: Json,
    pub is_error: bool,
    pub extensions: ExtensionMap,
}

#[derive(Clone, Debug, PartialEq)]
pub struct ReasoningBlock {
    pub text: String,
    pub extensions: ExtensionMap,
}

#[derive(Clone, Debug, PartialEq)]
pub struct RedactedReasoningBlock {
    pub data: String,
    pub extensions: ExtensionMap,
}

/// Content that the canonical model has no form for.
#[derive(Clone, Debug, PartialEq)]
pub struct UnsupportedBlock {
    pub origin: String,
    pub raw: Json,
}

/// One piece of a message.
#[derive(Clone, Debug, PartialEq)]
pub enum ContentBlock {
    Text(TextBlock),
    Image(ImageBlock),
    Audio(AudioBlock),
    File(FileBlock),
    ToolCall(ToolCallBlock),
    ToolResult(ToolResultBlock),
    Reasoning(ReasoningBlock),
    RedactedReasoning(RedactedReasoningBlock),
    Unsupported(UnsupportedBlock),
}

/// The model of `BinarySource`.
#[allow(inconsistent_fields)]
#[verifier::ext_equal]
pub enum SourceModel {
    Base64 { media_type: Seq<char>, data: Seq<u8> },
    Bytes { media_type: Seq<char>, data: Seq<u8> },
    Url { url: Seq<char> },
    ProviderFileId { file_id: Seq<char> },
}

/// The model of `ToolCallArguments`.
#[verifier::ext_equal]
pub enum ArgumentsModel {
    Complete { value: Tree },
    Streaming { data: Seq<char> },
}

/// The model of `ContentBlock`, apart from its extensions.
#[allow(inconsistent_fields)]
#[verifier::ext_equal]
pub enum BlockModel {
    Text { text: Seq<char> },
    Image { source: SourceModel },
    Audio { source: SourceModel },
    File { source: SourceModel },
    ToolCall { id: Seq<char>, name: Seq<char>, arguments: ArgumentsModel },
    ToolResult { tool_call_id: Seq<char>, content: Tree, is_error: bool },
    Reasoning { text: Seq<char> },
    RedactedReasoning { data: Seq<char> },
    Unsupported { origin: Seq<char>, raw: Tree },
}

impl BinarySource {
    pub open spec fn view(&self) -> SourceModel {
        match self {
            BinarySource::Base64 { media_type, data } => SourceModel::Base64 {
                media_type: media_type@,
                data: data@,
            },
            BinarySource::Bytes { media_type, data } => SourceModel::Bytes {
                media_type: media_type@,
                data: data@,
            },
            BinarySource::Url { url } => SourceModel::Url { url: url@ },
            BinarySource::ProviderFileId { file_id } => SourceModel::ProviderFileId {
                file_id: file_id@,
            },
        }
    }
}

impl ToolCallArguments {
    pub open spec fn view(&self) -> ArgumentsModel {
        match self {
            ToolCallArguments::Complete { value } => ArgumentsModel::Complete { value: value@ },
            ToolCallArguments::Streaming { data } => ArgumentsModel::Streaming { data: data@ },
        }
    }
}

impl ContentBlock {
    /// What this block holds, apart from its extensions.
    pub open spec fn view(&self) -> BlockModel {
        match self {
            ContentBlock::Text(b) => BlockModel::Text { text: b.text@ },
            ContentBlock::Image(b) => BlockModel::Image { source: b.source@ },
            ContentBlock::Audio(b) => BlockModel::Audio { source: b.source@ },
            ContentBlock::File(b) => BlockModel::File { source: b.source@ },
            ContentBlock::ToolCall(b) => BlockModel::ToolCall {
                id: b.id.0@,
                name: b.name@,
                arguments: b.arguments@,
            },
            ContentBlock::ToolResult(b) => BlockModel::ToolResult {
                tool_call_id: b.tool_call_id.0@,
                content: b.content@,
                is_error: b.is_error,
            },
            ContentBlock::Reasoning(b) => BlockModel::Reasoning { text: b.text@ },
            ContentBlock::RedactedReasoning(b) => BlockModel::RedactedReasoning { data: b.data@ },
            ContentBlock::Unsupported(b) => BlockModel::Unsupported {
                origin: b.origin@,
                raw: b.raw@,
            },
        }
    }

    /// The extensions of this block. Unsupported content has none.
    pub open spec fn extension_members(&self) -> Seq<(Seq<char>, Tree)> {
        match self {
            ContentBlock::Text(b) => b.extensions@,
            ContentBlock::Image(b) => b.extensions@,
            ContentBlock::Audio(b) => b.extensions@,
            ContentBlock::File(b) => b.extensions@,
            ContentBlock::ToolCall(b) => b.extensions@,
            ContentBlock::ToolResult(b) => b.extensions@,
            ContentBlock::Reasoning(b) => b.extensions@,
            ContentBlock::RedactedReasoning(b) => b.extensions@,
            ContentBlock::Unsupported(_) => seq![],
        }
    }
}

/// The models of a sequence of blocks.
pub open spec fn block_models(blocks: Seq<ContentBlock>) -> Seq<BlockModel> {
    Seq::new(blocks.len(), |i: int| blocks[i]@)
}

impl ContentBlock {
    /// Adds an extension to this block. Unsupported content takes none.
    pub fn add_extension(&mut self, key: &str, value: Json)
        ensures
            final(self)@ == old(self)@,
            final(self).extension_members() == (if old(self)@ is Unsupported {
                seq![]
            } else {
                with_member(old(self).extension_members(), key@, value@)
            }),
    {
        match self {
            ContentBlock::Text(b) => b.extensions.insert(key, value),
            ContentBlock::Image(b) => b.extensions.insert(key, value),
            ContentBlock::Audio(b) => b.extensions.insert(key, value),
            ContentBlock::File(b) => b.extensions.insert(key, value),
            ContentBlock::ToolCall(b) => b.extensions.insert(key, value),
            ContentBlock::ToolResult(b) => b.extensions.insert(key, value),
            ContentBlock::Reasoning(b) => b.extensions.insert(key, value),
            ContentBlock::RedactedReasoning(b) => b.extensions.insert(key, value),
            ContentBlock::Unsupported(_) => {},
        }
    }
}

impl ContentBlock {
    /// A plain text block.
    pub fn text(text: &str) -> (block: ContentBlock)
        ensures
            match block {
                ContentBlock::Text(t) => t.text@ == text@ && t.extensions@.len() == 0,
                _ => false,
            },
    {
        ContentBlock::Text(TextBlock { text: text.to_owned(), extensions: ExtensionMap::new() })
    }
}

#[derive(Clone, Debug, PartialEq)]
pub struct Message {
    pub role: MessageRole,
    pub content: Vec<ContentBlock>,
    pub name: Option<String>,
    pub source: Option<SystemSource>,
    pub extensions: ExtensionMap,
}

impl Message {
    /// A message of the user.
    pub fn user(content: Vec<ContentBlock>) -> (message: Message)
        ensures
            message.role == MessageRole::User,
            message.content == content,
            message.name is None,
            message.source is None,
            message.extensions@.len() == 0,
    {
        Message {
            role: MessageRole::User,
            content,
            name: None,
            source: None,
            extensions: ExtensionMap::new(),
        }
    }

    /// A message of the assistant.
    pub fn assistant(content: Vec<ContentBlock>) -> (message: Message)
        ensures
            message.role == MessageRole::Assistant,
            message.content == content,
            message.name is None,
            message.source is None,
            message.extensions@.len() == 0,
    {
        Message {
            role: MessageRole::Assistant,
            content,
            name: None,
            source: None,
            extensions: ExtensionMap::new(),
        }
    }

    /// A system message inside the conversation.
    pub fn system(source: SystemSource, content: Vec<ContentBlock>) -> (message: Message)
        ensures
            message.role == MessageRole::System,
            message.content == content,
            message.name is None,
            message.source == Some(source),
            message.extensions@.len() == 0,
    {
        Message {
            role: MessageRole::System,
            content,
            name: None,
            source: Some(source),
            extensions: ExtensionMap::new(),
        }
    }
}

#[derive(Clone, Debug, PartialEq)]
pub struct SystemInstruction {
    pub source: SystemSource,
    pub content: Vec<ContentBlock>,
}

#[derive(Clone, Debug, PartialEq)]
pub struct ToolDefinition {
    pub name: String,
    pub description: Option<String>,
    pub input_schema: Json,
    pub extensions: ExtensionMap,
}

#[derive(Clone, Debug, PartialEq)]
pub enum ToolChoice {
    Auto,
    /// No tool may be called.
    Off,
    Required,
    Specific { name: String },
}

#[derive(Clone, Copy, Debug, PartialEq, Eq, Structural)]
pub struct ReasoningOptions {
    pub effort: Option<ReasoningEffort>,
    pub budget_tokens: Option<u32>,
}

/// Sampling parameters. The fractional ones are held as JSON numbers, or as
/// `null` where the caller's value has no JSON form.
#[derive(Clone, Debug, PartialEq)]
pub struct GenerationOptions {
    pub max_tokens: Option<u32>,
    pub temperature: Option<Json>,
    pub top_p: Option<Json>,
    pub top_k: Option<u32>,
    pub presence_penalty: Option<Json>,
    pub frequency_penalty: Option<Json>,
    pub stop_sequences: Vec<String>,
    pub seed: Option<u64>,
    pub reasoning: Option<ReasoningOptions>,
}

impl Default for GenerationOptions {
    fn default() -> (options: GenerationOptions)
        ensures
            options.max_tokens is None,
            options.temperature is None,
            options.top_p is None,
            options.top_k is None,
            options.presence_penalty is None,
            options.frequency_penalty is None,
            options.stop_sequences@.len() == 0,
            options.seed is None,
            options.reasoning is None,
    {
        GenerationOptions {
            max_tokens: None,
            temperature: None,
            top_p: None,
            top_k: None,
            presence_penalty: None,
            frequency_penalty: None,
            stop_sequences: Vec::new(),
            seed: None,
            reasoning: None,
        }
    }
}

#[derive(Clone, Debug, PartialEq)]
pub enum ResponseFormat {
    Text,
    JsonObject,
    JsonSchema { name: String, schema: Json, strict: bool },
}

#[derive(Clone, Debug, PartialEq)]
pub struct RequestMetadata {
    pub user_id: Option<String>,
}

impl Default for RequestMetadata {
    fn default() -> (metadata: RequestMetadata)
        ensures
            metadata.user_id is None,
    {
        RequestMetadata { user_id: None }
    }
}

/// What a route's policy came to for one request.
#[derive(Clone, Debug, PartialEq)]
pub struct ResolvedPolicy {
    pub reasoning_effort: Option<ReasoningEffort>,
    pub reasoning_budget_tokens: Option<u32>,
    pub supported_efforts: Option<Vec<String>>,
    pub supported_endpoints: Option<Vec<String>>,
    pub anthropic_headers: Vec<(String, String)>,
}

impl Default for ResolvedPolicy {
    fn default() -> (policy: ResolvedPolicy)
        ensures
            policy.reasoning_effort is None,
            policy.reasoning_budget_tokens is None,
            policy.supported_efforts is None,
            policy.supported_endpoints is None,
            policy.anthropic_headers@.len() == 0,
    {
        ResolvedPolicy {
            reasoning_effort: None,
            reasoning_budget_tokens: None,
            supported_efforts: None,
            supported_endpoints: None,
            anthropic_headers: Vec::new(),
        }
    }
}

/// What a route configures for its upstream.
#[derive(Clone, Debug, PartialEq)]
pub struct RoutePolicy {
    pub default_reasoning_effort: Option<ReasoningEffort>,
    pub default_anthropic_beta: Option<String>,
}

impl Default for RoutePolicy {
    fn default() -> (policy: RoutePolicy)
        ensures
            policy.default_reasoning_effort is None,
            policy.default_anthropic_beta is None,
    {
        RoutePolicy { default_reasoning_effort: None, default_anthropic_beta: None }
    }
}

/// Where a request goes.
#[derive(Clone, Debug, PartialEq)]
pub struct BackendTarget {
    pub provider: String,
    pub model: String,
    pub policy: RoutePolicy,
}

#[derive(Clone, Debug, PartialEq)]
pub struct CanonicalRequest {
    pub id: RequestId,
    pub frontend: FrontendInfo,
    pub model: FrontendModel,
    pub system: Vec<SystemInstruction>,
    pub messages: Vec<Message>,
    pub tools: Vec<ToolDefinition>,
    pub tool_choice: ToolChoice,
    pub generation: GenerationOptions,
    pub response_format: Option<ResponseFormat>,
    pub stream: bool,
    pub metadata: RequestMetadata,
    pub inbound_anthropic_headers: Vec<(String, String)>,
    pub resolved_policy: ResolvedPolicy,
    pub extensions: ExtensionMap,
}

impl ReasoningEffort {
    /// The name of a level.
    pub open spec fn name(self) -> Seq<char> {
        match self {
            ReasoningEffort::Minimal => "minimal"@,
            ReasoningEffort::Low => "low"@,
            ReasoningEffort::Medium => "medium"@,
            ReasoningEffort::High => "high"@,
            ReasoningEffort::Xhigh => "xhigh"@,
            ReasoningEffort::Max => "max"@,
        }
    }

    /// The strongest level below this one.
    pub open spec fn weaker(self) -> Option<ReasoningEffort> {
        match self {
            ReasoningEffort::Minimal => None,
            ReasoningEffort::Low => Some(ReasoningEffort::Minimal),
            ReasoningEffort::Medium => Some(ReasoningEffort::Low),
            ReasoningEffort::High => Some(ReasoningEffort::Medium),
            ReasoningEffort::Xhigh => Some(ReasoningEffort::High),
            ReasoningEffort::Max => Some(ReasoningEffort::Xhigh),
        }
    }

    /// How many levels are below this one.
    pub open spec fn rank(self) -> nat {
        match self {
            ReasoningEffort::Minimal => 0,
            ReasoningEffort::Low => 1,
            ReasoningEffort::Medium => 2,
            ReasoningEffort::High => 3,
            ReasoningEffort::Xhigh => 4,
            ReasoningEffort::Max => 5,
        }
    }

    /// The strongest advertised level that is not above this one.
    pub open spec fn clamped(self, advertised: Seq<Seq<char>>) -> Option<Seq<char>>
        decreases self.rank(),
    {
        if advertised.contains(self.name()) {
            Some(self.name())
        } else {
            match self.weaker() {
                Some(w) => w.clamped(advertised),
                None => None,
            }
        }
    }

    pub fn as_str(&self) -> (name: &'static str)
        ensures
            name@ == self.name(),
    {
        match self {
            ReasoningEffort::Minimal => "minimal",
            ReasoningEffort::Low => "low",
            ReasoningEffort::Medium => "medium",
            ReasoningEffort::High => "high",
            ReasoningEffort::Xhigh => "xhigh",
            ReasoningEffort::Max => "max",
        }
    }

    fn step_down(&self) -> (weaker: Option<ReasoningEffort>)
        ensures
            weaker == self.weaker(),
    {
        match self {
            ReasoningEffort::Minimal => None,
            ReasoningEffort::Low => Some(ReasoningEffort::Minimal),
            ReasoningEffort::Medium => Some(ReasoningEffort::Low),
            ReasoningEffort::High => Some(ReasoningEffort::Medium),
            ReasoningEffort::Xhigh => Some(ReasoningEffort::High),
            ReasoningEffort::Max => Some(ReasoningEffort::Xhigh),
        }
    }

    /// The strongest advertised level that is not above this one.
    pub fn clamp_to_advertised(&self, advertised: &Vec<String>) -> (level: Option<&'static str>)
        ensures
            match level {
                Some(name) => self.clamped(crate::text::texts(advertised@)) == Some(name@),
                None => self.clamped(crate::text::texts(advertised@)) is None,
            },
        decreases self.rank(),
    {
        let name = self.as_str();
        if contains_text(advertised, name) {
            return Some(name);
        }
        match self.step_down() {
            Some(w) => w.clamp_to_advertised(advertised),
            None => None,
        }
    }
}

/// Whether one of the strings is `text`.
pub fn contains_text(strings: &Vec<String>, text: &str) -> (found: bool)
    ensures
        found == crate::text::texts(strings@).contains(text@),
{
    let mut i: usize = 0;
    while i < strings.len()
        invariant
            i <= strings.len(),
            forall|k: int| 0 <= k < i ==> (#[trigger] strings@[k])@ != text@,
        decreases strings.len() - i,
    {
        if same_text(strings[i].as_str(), text) {
            assert(crate::text::texts(strings@)[i as int] == text@);
            return true;
        }
        i = i + 1;
    }
    proof {
        let all = crate::text::texts(strings@);
        assert forall|k: int| 0 <= k < all.len() implies all[k] != text@ by {
            assert(strings@[k]@ != text@);
        }
    }
    false
}

// ---------------------------------------------------------------------------
// Laws
// ---------------------------------------------------------------------------

/// The names of the levels, from the weakest to the strongest.
pub open spec fn level_names() -> Seq<Seq<char>> {
    seq!["minimal"@, "low"@, "medium"@, "high"@, "xhigh"@, "max"@]
}

/// The place of a level among all.
pub open spec fn level(effort: ReasoningEffort) -> int {
    match effort {
        ReasoningEffort::Minimal => 0,
        ReasoningEffort::Low => 1,
        ReasoningEffort::Medium => 2,
        ReasoningEffort::High => 3,
        ReasoningEffort::Xhigh => 4,
        ReasoningEffort::Max => 5,
    }
}

/// A level has its name, and is held to the strongest advertised level that is
/// not above it: one that is advertised, at its place or below, with none
/// advertised in between. Where none so weak is advertised there is none.
pub proof fn level_is_held_to_what_is_advertised(
    effort: ReasoningEffort,
    advertised: Seq<Seq<char>>,
)
    ensures
        effort.name() == level_names()[level(effort)],
        match effort.clamped(advertised) {
            Some(name) => exists|k: int|
                {
                    &&& 0 <= k <= level(effort)
                    &&& #[trigger] level_names()[k] == name
                    &&& advertised.contains(name)
                    &&& forall|j: int|
                        k < j <= level(effort) ==> !advertised.contains(
                            #[trigger] level_names()[j],
                        )
                },
            None => forall|j: int|
                0 <= j <= level(effort) ==> !advertised.contains(#[trigger] level_names()[j]),
        },
    decreases effort.rank(),
{
    let here = level(effort);
    assert(level_names()[here] == effort.name());
    if !advertised.contains(effort.name()) {
        if let Some(w) = effort.weaker() {
            level_is_held_to_what_is_advertised(w, advertised);
            assert(level(w) == here - 1);
        }
    }
}

} // verus!
