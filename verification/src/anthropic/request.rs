//! Builds the Messages request body of a canonical request.
use vstd::prelude::*;
use vstd::string::*;

use crate::canonical::{
    BackendTarget, BinarySource, CanonicalRequest, ContentBlock, ExtensionMap, Message, MessageRole,
    ReasoningEffort, SystemInstruction, ToolCallArguments, ToolChoice, ToolDefinition,
};
use crate::json::{
    append, copied, member, no_members, no_values, number32, number_tree, object1, object2,
    opt_nat32, opt_text, opt_tree, optional_text, parsed_text, put, put_optional, text_tree, trees,
    with_member, with_optional, Json, Tree,
};
use crate::media::{base64_text, encode_base64};
use crate::oai_chat_wire::canonical_to_chat::block_texts;
use crate::text::{decimal, join, joined, same_text, texts};

verus! {

/// The token limit for requests that set none: the API demands one.
pub const DEFAULT_MAX_TOKENS: u32 = 4096;

// ---------------------------------------------------------------------------
// Model
// ---------------------------------------------------------------------------

/// An extension under its name, or else under its older name.
pub open spec fn extension(
    extensions: Seq<(Seq<char>, Tree)>,
    name: Seq<char>,
    older: Seq<char>,
) -> Option<Tree> {
    match member(extensions, name) {
        Some(v) => Some(v),
        None => member(extensions, older),
    }
}

/// The cache marker of a block.
pub open spec fn cache_control(extensions: Seq<(Seq<char>, Tree)>) -> Option<Tree> {
    extension(extensions, "anthropic.cache_control"@, "cache_control"@)
}

/// The signature of a reasoning block.
pub open spec fn signature(extensions: Seq<(Seq<char>, Tree)>) -> Option<Seq<char>> {
    match extension(extensions, "anthropic.signature"@, "signature"@) {
        Some(v) => v.as_str(),
        None => None,
    }
}

/// The members of an object that so far names its type only.
pub open spec fn typed(kind: Seq<char>) -> Seq<(Seq<char>, Tree)> {
    object1("type"@, Tree::Text(kind))
}

/// The source of an image, where the API has a form for it.
pub open spec fn image_source(source: BinarySource) -> Option<Tree> {
    match source {
        BinarySource::Base64 { media_type, data } => Some(
            Tree::Object(
                with_member(
                    with_member(typed("base64"@), "media_type"@, Tree::Text(media_type@)),
                    "data"@,
                    Tree::Text(base64_text(data@)),
                ),
            ),
        ),
        BinarySource::Url { url } => Some(
            Tree::Object(with_member(typed("url"@), "url"@, Tree::Text(url@))),
        ),
        BinarySource::Bytes { .. } | BinarySource::ProviderFileId { .. } => None,
    }
}

/// The input of a tool call. Text that is no JSON becomes an empty object.
pub open spec fn call_input(arguments: ToolCallArguments) -> Tree {
    match arguments {
        ToolCallArguments::Complete { value } => value@,
        ToolCallArguments::Streaming { data } => match parsed_text(data@) {
            Ok(tree) => tree,
            Err(_) => Tree::Object(seq![]),
        },
    }
}

/// The content of a tool result: text, a list of blocks, or nothing. Any
/// other value is sent as its JSON text.
pub open spec fn result_content(content: Tree) -> Option<Tree> {
    match content {
        Tree::Null => None,
        Tree::Text(_) => Some(content),
        Tree::Array(_) => Some(content),
        _ => Some(Tree::Text(content.compact())),
    }
}

/// The JSON form of a block, where the API has one.
pub open spec fn block_tree(block: ContentBlock) -> Option<Tree> {
    match block {
        ContentBlock::Text(t) => Some(
            Tree::Object(
                with_optional(
                    with_member(typed("text"@), "text"@, Tree::Text(t.text@)),
                    "cache_control"@,
                    cache_control(t.extensions@),
                ),
            ),
        ),
        ContentBlock::Image(image) => match image_source(image.source) {
            Some(source) => Some(
                Tree::Object(
                    with_optional(
                        with_member(typed("image"@), "source"@, source),
                        "cache_control"@,
                        cache_control(image.extensions@),
                    ),
                ),
            ),
            None => None,
        },
        ContentBlock::ToolCall(tc) => Some(
            Tree::Object(
                with_optional(
                    with_member(
                        with_member(
                            with_member(typed("tool_use"@), "id"@, Tree::Text(tc.id.0@)),
                            "name"@,
                            Tree::Text(tc.name@),
                        ),
                        "input"@,
                        call_input(tc.arguments),
                    ),
                    "cache_control"@,
                    cache_control(tc.extensions@),
                ),
            ),
        ),
        ContentBlock::ToolResult(tr) => Some(
            Tree::Object(
                with_optional(
                    with_optional(
                        with_optional(
                            with_member(
                                typed("tool_result"@),
                                "tool_use_id"@,
                                Tree::Text(tr.tool_call_id.0@),
                            ),
                            "is_error"@,
                            if tr.is_error {
                                Some(Tree::Bool(true))
                            } else {
                                None
                            },
                        ),
                        "content"@,
                        result_content(tr.content@),
                    ),
                    "cache_control"@,
                    cache_control(tr.extensions@),
                ),
            ),
        ),
        ContentBlock::Reasoning(r) => Some(
            Tree::Object(
                with_optional(
                    with_member(typed("thinking"@), "thinking"@, Tree::Text(r.text@)),
                    "signature"@,
                    text_tree(signature(r.extensions@)),
                ),
            ),
        ),
        ContentBlock::RedactedReasoning(r) => Some(
            Tree::Object(
                with_member(typed("redacted_thinking"@), "data"@, Tree::Text(r.data@)),
            ),
        ),
        ContentBlock::Audio(_) | ContentBlock::File(_) | ContentBlock::Unsupported(_) => None,
    }
}

/// The JSON forms of the blocks that have one, in order.
pub open spec fn block_trees(blocks: Seq<ContentBlock>) -> Seq<Tree>
    decreases blocks.len(),
{
    if blocks.len() == 0 {
        seq![]
    } else {
        let before = block_trees(blocks.drop_last());
        match block_tree(blocks.last()) {
            Some(tree) => before.push(tree),
            None => before,
        }
    }
}

/// The role name of a message. Everything but the assistant speaks as the
/// user.
pub open spec fn role_name(role: MessageRole) -> Seq<char> {
    match role {
        MessageRole::Assistant => "assistant"@,
        _ => "user"@,
    }
}

/// The JSON form of a message.
pub open spec fn message_tree(message: Message) -> Tree {
    Tree::Object(
        object2(
            "role"@,
            Tree::Text(role_name(message.role)),
            "content"@,
            Tree::Array(block_trees(message.content@)),
        ),
    )
}

/// The blocks of all system instructions, in order.
pub open spec fn system_blocks(system: Seq<SystemInstruction>) -> Seq<ContentBlock>
    decreases system.len(),
{
    if system.len() == 0 {
        seq![]
    } else {
        system_blocks(system.drop_last()) + system.last().content@
    }
}

/// A text block without extensions.
pub open spec fn is_simple(block: ContentBlock) -> bool {
    match block {
        ContentBlock::Text(t) => t.extensions@.len() == 0,
        _ => false,
    }
}

pub open spec fn all_simple(blocks: Seq<ContentBlock>) -> bool {
    forall|i: int| 0 <= i < blocks.len() ==> is_simple(#[trigger] blocks[i])
}

/// The system prompt: one text where every block is plain, a list of blocks
/// where one is not, and nothing where it would be empty.
pub open spec fn system_tree(system: Seq<SystemInstruction>) -> Option<Tree> {
    let blocks = system_blocks(system);
    let text = joined(block_texts(blocks), "\n\n"@);
    if all_simple(blocks) {
        if text.len() == 0 {
            None
        } else {
            Some(Tree::Text(text))
        }
    } else if block_trees(blocks).len() == 0 {
        None
    } else {
        Some(Tree::Array(block_trees(blocks)))
    }
}

/// The JSON form of a tool.
pub open spec fn tool_tree(tool: ToolDefinition) -> Tree {
    Tree::Object(
        with_optional(
            with_member(
                with_optional(
                    object1("name"@, Tree::Text(tool.name@)),
                    "description"@,
                    text_tree(opt_text(tool.description)),
                ),
                "input_schema"@,
                tool.input_schema@,
            ),
            "cache_control"@,
            cache_control(tool.extensions@),
        ),
    )
}

/// The tools, if there are any.
pub open spec fn tools_tree(tools: Seq<ToolDefinition>) -> Option<Tree> {
    if tools.len() == 0 {
        None
    } else {
        Some(Tree::Array(Seq::new(tools.len(), |i: int| tool_tree(tools[i]))))
    }
}

/// The tool choice. The API's default is left out.
pub open spec fn choice_tree(choice: ToolChoice) -> Option<Tree> {
    match choice {
        ToolChoice::Auto => None,
        ToolChoice::Required => Some(Tree::Object(typed("any"@))),
        ToolChoice::Off => Some(Tree::Object(typed("none"@))),
        ToolChoice::Specific { name } => Some(
            Tree::Object(with_member(typed("tool"@), "name"@, Tree::Text(name@))),
        ),
    }
}

/// The token budget of an effort.
pub open spec fn effort_budget(effort: ReasoningEffort) -> u32 {
    match effort {
        ReasoningEffort::Minimal => 128,
        ReasoningEffort::Low => 512,
        ReasoningEffort::Medium => 2048,
        ReasoningEffort::High => 8192,
        ReasoningEffort::Xhigh => 16384,
        ReasoningEffort::Max => 16384,
    }
}

/// The effort that applies: the request's, or else the policy's.
pub open spec fn effort_of(request: CanonicalRequest) -> Option<ReasoningEffort> {
    let own = match request.generation.reasoning {
        Some(options) => options.effort,
        None => None,
    };
    match own {
        Some(effort) => Some(effort),
        None => request.resolved_policy.reasoning_effort,
    }
}

/// The token budget that applies: one that the request names, or that of its
/// effort, or else the same of the policy.
pub open spec fn budget_of(request: CanonicalRequest) -> Option<u32> {
    let options = request.generation.reasoning;
    let policy = request.resolved_policy;
    if options is Some && options->0.budget_tokens is Some {
        options->0.budget_tokens
    } else if options is Some && options->0.effort is Some {
        Some(effort_budget(options->0.effort->0))
    } else if policy.reasoning_budget_tokens is Some {
        policy.reasoning_budget_tokens
    } else if policy.reasoning_effort is Some {
        Some(effort_budget(policy.reasoning_effort->0))
    } else {
        None
    }
}

/// Whether `part` occurs in `text`.
pub open spec fn mentions(text: Seq<char>, part: Seq<char>) -> bool {
    exists|i: int|
        0 <= i && i + part.len() <= text.len() && #[trigger] text.subrange(i, i + part.len())
            == part
}

/// Whether a header turns the effort extension of the API on.
pub open spec fn enables_effort(header: (String, String)) -> bool {
    header.0@ == "anthropic-beta"@ && mentions(header.1@, "effort-2025-11-24"@)
}

/// Whether the effort extension of the API is turned on.
pub open spec fn effort_enabled(headers: Seq<(String, String)>) -> bool {
    exists|i: int| 0 <= i < headers.len() && enables_effort(#[trigger] headers[i])
}

/// The name of an effort in the API's effort extension, which starts at
/// `low`.
pub open spec fn adaptive_effort(effort: ReasoningEffort) -> Seq<char> {
    match effort {
        ReasoningEffort::Minimal => "low"@,
        _ => effort.name(),
    }
}

/// Whether the effort extension applies to a request.
pub open spec fn is_adaptive(request: CanonicalRequest) -> bool {
    effort_enabled(request.resolved_policy.anthropic_headers@) && effort_of(request) is Some
}

/// The thinking mode: left to the model under the effort extension, a token
/// budget without it.
pub open spec fn thinking_tree(request: CanonicalRequest) -> Option<Tree> {
    if is_adaptive(request) {
        Some(Tree::Object(typed("adaptive"@)))
    } else {
        match budget_of(request) {
            Some(budget) => Some(
                Tree::Object(
                    with_member(
                        typed("enabled"@),
                        "budget_tokens"@,
                        Tree::Number(decimal(budget as nat)),
                    ),
                ),
            ),
            None => None,
        }
    }
}

/// The output configuration: the effort, under the effort extension.
pub open spec fn output_config_tree(request: CanonicalRequest) -> Option<Tree> {
    if is_adaptive(request) {
        Some(
            Tree::Object(
                object1("effort"@, Tree::Text(adaptive_effort(effort_of(request)->0))),
            ),
        )
    } else {
        None
    }
}

/// The stop sequences, if there are any.
pub open spec fn stops_tree(stops: Seq<String>) -> Option<Tree> {
    if stops.len() == 0 {
        None
    } else {
        Some(Tree::Array(Seq::new(stops.len(), |i: int| Tree::Text(stops[i]@))))
    }
}

/// The token limit.
pub open spec fn max_tokens_of(request: CanonicalRequest) -> u32 {
    match request.generation.max_tokens {
        Some(n) => n,
        None => DEFAULT_MAX_TOKENS,
    }
}

/// The body of a Messages request.
pub open spec fn messages_body(request: CanonicalRequest, target: BackendTarget) -> Tree {
    let options = request.generation;
    let m0 = object2(
        "model"@,
        Tree::Text(target.model@),
        "messages"@,
        Tree::Array(
            Seq::new(request.messages@.len(), |i: int| message_tree(request.messages@[i])),
        ),
    );
    let m1 = with_optional(m0, "system"@, system_tree(request.system@));
    let m2 = with_optional(m1, "tools"@, tools_tree(request.tools@));
    let m3 = with_optional(m2, "tool_choice"@, choice_tree(request.tool_choice));
    let m4 = with_member(
        m3,
        "max_tokens"@,
        Tree::Number(decimal(max_tokens_of(request) as nat)),
    );
    let m5 = with_optional(m4, "temperature"@, opt_tree(options.temperature));
    let m6 = with_optional(m5, "top_p"@, opt_tree(options.top_p));
    let m7 = with_optional(m6, "top_k"@, number_tree(opt_nat32(options.top_k)));
    let m8 = with_optional(m7, "stop_sequences"@, stops_tree(options.stop_sequences@));
    let m9 = with_member(m8, "stream"@, Tree::Bool(request.stream));
    let m10 = with_optional(
        m9,
        "metadata"@,
        match request.metadata.user_id {
            Some(user_id) => Some(Tree::Object(object1("user_id"@, Tree::Text(user_id@)))),
            None => None,
        },
    );
    let m11 = with_optional(m10, "thinking"@, thinking_tree(request));
    Tree::Object(with_optional(m11, "output_config"@, output_config_tree(request)))
}

// ---------------------------------------------------------------------------
// Encoder
// ---------------------------------------------------------------------------

/// Builds the body of a Messages request.
pub fn build(req: &CanonicalRequest, target: &BackendTarget) -> (body: Json)
    ensures
        body@ == messages_body(*req, *target),
{
    let options = &req.generation;
    let mut m = no_members();
    put(&mut m, "model", Json::text(target.model.as_str()));
    put(&mut m, "messages", build_messages(&req.messages));
    put_optional(&mut m, "system", build_system(&req.system));
    put_optional(&mut m, "tools", build_tools(&req.tools));
    put_optional(&mut m, "tool_choice", build_tool_choice(&req.tool_choice));
    let max_tokens: u32 = match options.max_tokens {
        Some(n) => n,
        None => DEFAULT_MAX_TOKENS,
    };
    put(&mut m, "max_tokens", Json::unsigned(max_tokens as u64));
    put_optional(&mut m, "temperature", copied(&options.temperature));
    put_optional(&mut m, "top_p", copied(&options.top_p));
    put_optional(&mut m, "top_k", number32(options.top_k));
    put_optional(&mut m, "stop_sequences", build_stops(&options.stop_sequences));
    put(&mut m, "stream", Json::Bool(req.stream));
    let metadata = match &req.metadata.user_id {
        Some(user_id) => Some(Json::object1("user_id", Json::text(user_id.as_str()))),
        None => None,
    };
    put_optional(&mut m, "metadata", metadata);
    put_optional(&mut m, "thinking", build_thinking(req));
    put_optional(&mut m, "output_config", build_output_config(req));
    Json::Object(m)
}

fn start_typed(kind: &str) -> (m: Vec<(String, Json)>)
    ensures
        crate::json::members(m@) == typed(kind@),
{
    let mut m = no_members();
    put(&mut m, "type", Json::text(kind));
    m
}

fn cache_control_from_ext(extensions: &ExtensionMap) -> (value: Option<Json>)
    ensures
        opt_tree(value) == cache_control(extensions@),
{
    match extensions.get("anthropic.cache_control") {
        Some(v) => Some(v.duplicate()),
        None => match extensions.get("cache_control") {
            Some(v) => Some(v.duplicate()),
            None => None,
        },
    }
}

fn signature_from_ext(extensions: &ExtensionMap) -> (value: Option<Json>)
    ensures
        opt_tree(value) == text_tree(signature(extensions@)),
{
    let found = match extensions.get("anthropic.signature") {
        Some(v) => Some(v),
        None => extensions.get("signature"),
    };
    match found {
        Some(v) => match v.as_str() {
            Some(s) => Some(Json::text(s)),
            None => None,
        },
        None => None,
    }
}

fn build_image_source(source: &BinarySource) -> (value: Option<Json>)
    ensures
        opt_tree(value) == image_source(*source),
{
    match source {
        BinarySource::Base64 { media_type, data } => {
            let mut m = start_typed("base64");
            put(&mut m, "media_type", Json::text(media_type.as_str()));
            put(&mut m, "data", Json::Text(encode_base64(data.as_slice())));
            Some(Json::Object(m))
        },
        BinarySource::Url { url } => {
            let mut m = start_typed("url");
            put(&mut m, "url", Json::text(url.as_str()));
            Some(Json::Object(m))
        },
        BinarySource::Bytes { .. } => None,
        BinarySource::ProviderFileId { .. } => None,
    }
}

fn build_call_input(arguments: &ToolCallArguments) -> (value: Json)
    ensures
        value@ == call_input(*arguments),
{
    match arguments {
        ToolCallArguments::Complete { value } => value.duplicate(),
        ToolCallArguments::Streaming { data } => match Json::parse(data.as_str()) {
            Ok(value) => value,
            Err(_) => Json::Object(no_members()),
        },
    }
}

fn tool_result_content(content: &Json) -> (value: Option<Json>)
    ensures
        opt_tree(value) == result_content(content@),
{
    match content {
        Json::Null => None,
        Json::Text(_) => Some(content.duplicate()),
        Json::Array(_) => Some(content.duplicate()),
        _ => Some(Json::Text(content.to_text())),
    }
}

/// Builds the JSON form of a block.
fn content_block_to_outgoing(block: &ContentBlock) -> (value: Option<Json>)
    ensures
        opt_tree(value) == block_tree(*block),
{
    match block {
        ContentBlock::Text(t) => {
            let mut m = start_typed("text");
            put(&mut m, "text", Json::text(t.text.as_str()));
            put_optional(&mut m, "cache_control", cache_control_from_ext(&t.extensions));
            Some(Json::Object(m))
        },
        ContentBlock::Image(image) => {
            match build_image_source(&image.source) {
                Some(source) => {
                    let mut m = start_typed("image");
                    put(&mut m, "source", source);
                    put_optional(
                        &mut m,
                        "cache_control",
                        cache_control_from_ext(&image.extensions),
                    );
                    Some(Json::Object(m))
                },
                None => None,
            }
        },
        ContentBlock::ToolCall(tc) => {
            let mut m = start_typed("tool_use");
            put(&mut m, "id", Json::text(tc.id.0.as_str()));
            put(&mut m, "name", Json::text(tc.name.as_str()));
            put(&mut m, "input", build_call_input(&tc.arguments));
            put_optional(&mut m, "cache_control", cache_control_from_ext(&tc.extensions));
            Some(Json::Object(m))
        },
        ContentBlock::ToolResult(tr) => {
            let mut m = start_typed("tool_result");
            put(&mut m, "tool_use_id", Json::text(tr.tool_call_id.0.as_str()));
            let is_error = if tr.is_error {
                Some(Json::Bool(true))
            } else {
                None
            };
            put_optional(&mut m, "is_error", is_error);
            put_optional(&mut m, "content", tool_result_content(&tr.content));
            put_optional(&mut m, "cache_control", cache_control_from_ext(&tr.extensions));
            Some(Json::Object(m))
        },
        ContentBlock::Reasoning(r) => {
            let mut m = start_typed("thinking");
            put(&mut m, "thinking", Json::text(r.text.as_str()));
            put_optional(&mut m, "signature", signature_from_ext(&r.extensions));
            Some(Json::Object(m))
        },
        ContentBlock::RedactedReasoning(r) => {
            let mut m = start_typed("redacted_thinking");
            put(&mut m, "data", Json::text(r.data.as_str()));
            Some(Json::Object(m))
        },
        ContentBlock::Audio(_) => None,
        ContentBlock::File(_) => None,
        ContentBlock::Unsupported(_) => None,
    }
}

fn build_blocks(blocks: &Vec<ContentBlock>) -> (values: Vec<Json>)
    ensures
        trees(values@) == block_trees(blocks@),
{
    let mut values = no_values();
    let mut i: usize = 0;
    while i < blocks.len()
        invariant
            i <= blocks@.len(),
            trees(values@) == block_trees(blocks@.take(i as int)),
        decreases blocks.len() - i,
    {
        proof {
            assert(blocks@.take(i + 1).drop_last() =~= blocks@.take(i as int));
            assert(blocks@.take(i + 1).last() == blocks@[i as int]);
        }
        if let Some(value) = content_block_to_outgoing(&blocks[i]) {
            append(&mut values, value);
        }
        i = i + 1;
    }
    assert(blocks@.take(i as int) =~= blocks@);
    values
}

fn build_messages(messages: &Vec<Message>) -> (value: Json)
    ensures
        value@ == Tree::Array(Seq::new(messages@.len(), |i: int| message_tree(messages@[i]))),
{
    let ghost all = Seq::new(messages@.len(), |i: int| message_tree(messages@[i]));
    let mut values = no_values();
    let mut i: usize = 0;
    assert(all.take(0) =~= seq![]);
    while i < messages.len()
        invariant
            i <= messages@.len(),
            all == Seq::new(messages@.len(), |i: int| message_tree(messages@[i])),
            trees(values@) == all.take(i as int),
        decreases messages.len() - i,
    {
        let message = &messages[i];
        let role = match message.role {
            MessageRole::Assistant => "assistant",
            _ => "user",
        };
        let value = Json::object2(
            "role",
            Json::text(role),
            "content",
            Json::Array(build_blocks(&message.content)),
        );
        append(&mut values, value);
        i = i + 1;
        assert(all.take(i as int) =~= all.take(i - 1).push(all[i - 1]));
    }
    assert(all.take(i as int) =~= all);
    Json::Array(values)
}

fn is_simple_text_block(block: &ContentBlock) -> (simple: bool)
    ensures
        simple == is_simple(*block),
{
    match block {
        ContentBlock::Text(t) => t.extensions.is_empty(),
        _ => false,
    }
}

/// Builds the system prompt.
fn build_system(system: &Vec<SystemInstruction>) -> (value: Option<Json>)
    ensures
        opt_tree(value) == system_tree(system@),
{
    let mut simple = true;
    let mut parts: Vec<String> = Vec::new();
    let mut values = no_values();
    let ghost mut seen: Seq<ContentBlock> = seq![];
    let mut i: usize = 0;
    assert(texts(parts@) =~= seq![]);
    while i < system.len()
        invariant
            i <= system@.len(),
            seen == system_blocks(system@.take(i as int)),
            simple == all_simple(seen),
            texts(parts@) == block_texts(seen),
            trees(values@) == block_trees(seen),
        decreases system.len() - i,
    {
        let content = &system[i].content;
        let ghost before = seen;
        let mut k: usize = 0;
        assert(before + content@.take(0) =~= before);
        while k < content.len()
            invariant
                k <= content@.len(),
                seen == before + content@.take(k as int),
                simple == all_simple(seen),
                texts(parts@) == block_texts(seen),
                trees(values@) == block_trees(seen),
            decreases content.len() - k,
        {
            let block = &content[k];
            proof {
                let last = seen;
                seen = seen.push(*block);
                assert(seen.drop_last() =~= last);
                assert(seen =~= before + content@.take(k + 1));
                assert(all_simple(seen) == (all_simple(last) && is_simple(*block))) by {
                    assert(seen[last.len() as int] == *block);
                    assert forall|j: int| 0 <= j < last.len() implies seen[j] == #[trigger] last[j]
                        by {}
                    if all_simple(seen) {
                        assert forall|j: int| 0 <= j < last.len() implies is_simple(
                            #[trigger] last[j],
                        ) by {
                            assert(is_simple(seen[j]));
                        }
                    }
                }
            }
            if !is_simple_text_block(block) {
                simple = false;
            }
            if let ContentBlock::Text(t) = block {
                let ghost old_parts = parts@;
                parts.push(t.text.clone());
                assert(texts(parts@) =~= texts(old_parts).push(t.text@));
            }
            if let Some(value) = content_block_to_outgoing(block) {
                append(&mut values, value);
            }
            k = k + 1;
        }
        proof {
            assert(content@.take(k as int) =~= content@);
            assert(system@.take(i + 1).drop_last() =~= system@.take(i as int));
            assert(system@.take(i + 1).last() == system@[i as int]);
        }
        i = i + 1;
    }
    assert(system@.take(i as int) =~= system@);
    if simple {
        let text = join(&parts, "\n\n");
        if text.as_str().is_empty() {
            None
        } else {
            Some(Json::Text(text))
        }
    } else if values.len() == 0 {
        None
    } else {
        Some(Json::Array(values))
    }
}

fn build_tools(tools: &Vec<ToolDefinition>) -> (value: Option<Json>)
    ensures
        opt_tree(value) == tools_tree(tools@),
{
    if tools.len() == 0 {
        return None;
    }
    let ghost all = Seq::new(tools@.len(), |i: int| tool_tree(tools@[i]));
    let mut values = no_values();
    let mut i: usize = 0;
    assert(all.take(0) =~= seq![]);
    while i < tools.len()
        invariant
            i <= tools@.len(),
            all == Seq::new(tools@.len(), |i: int| tool_tree(tools@[i])),
            trees(values@) == all.take(i as int),
        decreases tools.len() - i,
    {
        let tool = &tools[i];
        let mut m = no_members();
        put(&mut m, "name", Json::text(tool.name.as_str()));
        put_optional(&mut m, "description", optional_text(&tool.description));
        put(&mut m, "input_schema", tool.input_schema.duplicate());
        put_optional(&mut m, "cache_control", cache_control_from_ext(&tool.extensions));
        append(&mut values, Json::Object(m));
        i = i + 1;
        assert(all.take(i as int) =~= all.take(i - 1).push(all[i - 1]));
    }
    assert(all.take(i as int) =~= all);
    Some(Json::Array(values))
}

fn build_tool_choice(choice: &ToolChoice) -> (value: Option<Json>)
    ensures
        opt_tree(value) == choice_tree(*choice),
{
    match choice {
        ToolChoice::Auto => None,
        ToolChoice::Required => Some(Json::Object(start_typed("any"))),
        ToolChoice::Off => Some(Json::Object(start_typed("none"))),
        ToolChoice::Specific { name } => {
            let mut m = start_typed("tool");
            put(&mut m, "name", Json::text(name.as_str()));
            Some(Json::Object(m))
        },
    }
}

fn build_stops(stops: &Vec<String>) -> (value: Option<Json>)
    ensures
        opt_tree(value) == stops_tree(stops@),
{
    if stops.len() == 0 {
        return None;
    }
    let ghost all = Seq::new(stops@.len(), |i: int| Tree::Text(stops@[i]@));
    let mut values = no_values();
    let mut i: usize = 0;
    assert(all.take(0) =~= seq![]);
    while i < stops.len()
        invariant
            i <= stops@.len(),
            all == Seq::new(stops@.len(), |i: int| Tree::Text(stops@[i]@)),
            trees(values@) == all.take(i as int),
        decreases stops.len() - i,
    {
        append(&mut values, Json::text(stops[i].as_str()));
        i = i + 1;
        assert(all.take(i as int) =~= all.take(i - 1).push(all[i - 1]));
    }
    assert(all.take(i as int) =~= all);
    Some(Json::Array(values))
}

/// The token budget of an effort.
pub fn effort_to_budget(effort: ReasoningEffort) -> (budget: u32)
    ensures
        budget == effort_budget(effort),
{
    match effort {
        ReasoningEffort::Minimal => 128,
        ReasoningEffort::Low => 512,
        ReasoningEffort::Medium => 2048,
        ReasoningEffort::High => 8192,
        ReasoningEffort::Xhigh => 16384,
        ReasoningEffort::Max => 16384,
    }
}

fn request_effort(req: &CanonicalRequest) -> (effort: Option<ReasoningEffort>)
    ensures
        effort == effort_of(*req),
{
    let own = match req.generation.reasoning {
        Some(options) => options.effort,
        None => None,
    };
    match own {
        Some(effort) => Some(effort),
        None => req.resolved_policy.reasoning_effort,
    }
}

fn request_budget(req: &CanonicalRequest) -> (budget: Option<u32>)
    ensures
        budget == budget_of(*req),
{
    if let Some(options) = req.generation.reasoning {
        if let Some(budget) = options.budget_tokens {
            return Some(budget);
        }
        if let Some(effort) = options.effort {
            return Some(effort_to_budget(effort));
        }
    }
    if let Some(budget) = req.resolved_policy.reasoning_budget_tokens {
        return Some(budget);
    }
    match req.resolved_policy.reasoning_effort {
        Some(effort) => Some(effort_to_budget(effort)),
        None => None,
    }
}

/// Whether `part` occurs in `text`.
fn text_mentions(text: &str, part: &str) -> (found: bool)
    ensures
        found == mentions(text@, part@),
{
    let n = part.unicode_len();
    let total = text.unicode_len();
    if n > total {
        return false;
    }
    let mut i: usize = 0;
    while i <= total - n
        invariant
            n == part@.len(),
            total == text@.len(),
            n <= total,
            i <= total - n + 1,
            forall|k: int|
                0 <= k < i ==> #[trigger] text@.subrange(k, k + part@.len()) != part@,
        decreases total - n + 1 - i,
    {
        if same_text(text.substring_char(i, i + n), part) {
            assert(text@.subrange(i as int, i + part@.len()) == part@);
            return true;
        }
        if i == total - n {
            return false;
        }
        i = i + 1;
    }
    false
}

fn effort_beta(headers: &Vec<(String, String)>) -> (enabled: bool)
    ensures
        enabled == effort_enabled(headers@),
{
    let mut i: usize = 0;
    while i < headers.len()
        invariant
            i <= headers@.len(),
            forall|k: int| 0 <= k < i ==> !enables_effort(#[trigger] headers@[k]),
        decreases headers.len() - i,
    {
        let header = &headers[i];
        if same_text(header.0.as_str(), "anthropic-beta") && text_mentions(
            header.1.as_str(),
            "effort-2025-11-24",
        ) {
            assert(enables_effort(headers@[i as int]));
            return true;
        }
        i = i + 1;
    }
    false
}

fn adaptive(req: &CanonicalRequest) -> (effort: Option<ReasoningEffort>)
    ensures
        match effort {
            Some(e) => is_adaptive(*req) && effort_of(*req) == Some(e),
            None => !is_adaptive(*req),
        },
{
    if effort_beta(&req.resolved_policy.anthropic_headers) {
        request_effort(req)
    } else {
        None
    }
}

fn build_thinking(req: &CanonicalRequest) -> (value: Option<Json>)
    ensures
        opt_tree(value) == thinking_tree(*req),
{
    if let Some(_effort) = adaptive(req) {
        return Some(Json::Object(start_typed("adaptive")));
    }
    match request_budget(req) {
        Some(budget) => {
            let mut m = start_typed("enabled");
            put(&mut m, "budget_tokens", Json::unsigned(budget as u64));
            Some(Json::Object(m))
        },
        None => None,
    }
}

fn build_output_config(req: &CanonicalRequest) -> (value: Option<Json>)
    ensures
        opt_tree(value) == output_config_tree(*req),
{
    match adaptive(req) {
        Some(effort) => {
            let name = match effort {
                ReasoningEffort::Minimal => "low",
                _ => effort.as_str(),
            };
            Some(Json::object1("effort", Json::text(name)))
        },
        None => None,
    }
}

} // verus!
