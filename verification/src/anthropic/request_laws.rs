//! What a Messages body says, read back from the body.
use vstd::prelude::*;

use super::request::{
    block_tree, block_trees, choice_tree, effort_budget, message_tree, messages_body, system_blocks,
    tool_tree,
};
use crate::canonical::{
    BackendTarget, BinarySource, CanonicalRequest, ContentBlock, Message, MessageRole,
    ReasoningEffort, SystemInstruction, ToolCallArguments, ToolChoice, ToolDefinition,
};
use crate::json::{
    member, member_after_optional, member_after_set, member_of_nothing, parsed_text, tag, Tree,
};
use crate::media::base64_text;
use crate::oai_chat_wire::canonical_to_chat::block_texts;
use crate::text::{decimal, joined};

verus! {

/// The names of the members of a body differ.
proof fn lemma_names()
    ensures
        tag("model"@) == 6100108,
        tag("messages"@) == 9099815,
        tag("system"@) == 7161709,
        tag("tools"@) == 6171215,
        tag("tool_choice"@) == 12170001,
        tag("max_tokens"@) == 11101215,
        tag("temperature"@) == 12171501,
        tag("top_p"@) == 6171312,
        tag("top_k"@) == 6171307,
        tag("stop_sequences"@) == 15161415,
        tag("stream"@) == 7160209,
        tag("metadata"@) == 9100097,
        tag("thinking"@) == 9170803,
        tag("output_config"@) == 14119603,
{
    reveal_strlit("model");
    reveal_strlit("messages");
    reveal_strlit("system");
    reveal_strlit("tools");
    reveal_strlit("tool_choice");
    reveal_strlit("max_tokens");
    reveal_strlit("temperature");
    reveal_strlit("top_p");
    reveal_strlit("top_k");
    reveal_strlit("stop_sequences");
    reveal_strlit("stream");
    reveal_strlit("metadata");
    reveal_strlit("thinking");
    reveal_strlit("output_config");
}

/// The names of the members inside a body differ.
proof fn lemma_inner_names()
    ensures
        tag("type"@) == 5171301,
        tag("text"@) == 5172116,
        tag("cache_control"@) == 14000008,
        tag("source"@) == 7161501,
        tag("media_type"@) == 11099601,
        tag("data"@) == 5011697,
        tag("url"@) == 4181508,
        tag("id"@) == 3060100,
        tag("name"@) == 5111001,
        tag("input"@) == 6061316,
        tag("tool_use_id"@) == 12171800,
        tag("is_error"@) == 9061514,
        tag("content"@) == 8001716,
        tag("thinking"@) == 9170803,
        tag("signature"@) == 10159801,
        tag("role"@) == 5150901,
        tag("description"@) == 12010610,
        tag("input_schema"@) == 13061597,
        tag("budget_tokens"@) == 13989615,
        tag("effort"@) == 7021216,
        tag("user_id"@) == 8181500,
{
    reveal_strlit("type");
    reveal_strlit("text");
    reveal_strlit("cache_control");
    reveal_strlit("source");
    reveal_strlit("media_type");
    reveal_strlit("data");
    reveal_strlit("url");
    reveal_strlit("id");
    reveal_strlit("name");
    reveal_strlit("input");
    reveal_strlit("tool_use_id");
    reveal_strlit("is_error");
    reveal_strlit("content");
    reveal_strlit("thinking");
    reveal_strlit("signature");
    reveal_strlit("role");
    reveal_strlit("description");
    reveal_strlit("input_schema");
    reveal_strlit("budget_tokens");
    reveal_strlit("effort");
    reveal_strlit("user_id");
}

/// Every option of a request is read back from the body under its own name, as
/// it was given, and is missing where it was not given. A limit on the tokens
/// is always there.
pub proof fn options_are_read_back(request: CanonicalRequest, target: BackendTarget)
    ensures
        ({
            let body = messages_body(request, target);
            let options = request.generation;
            &&& body.get("model"@) == Some(Tree::Text(target.model@))
            &&& body.get("max_tokens"@) == (match options.max_tokens {
                Some(n) => Some(Tree::Number(decimal(n as nat))),
                None => Some(Tree::Number(decimal(4096))),
            })
            &&& body.get("temperature"@) == (match options.temperature {
                Some(v) => Some(v@),
                None => None,
            })
            &&& body.get("top_p"@) == (match options.top_p {
                Some(v) => Some(v@),
                None => None,
            })
            &&& body.get("top_k"@) == (match options.top_k {
                Some(v) => Some(Tree::Number(decimal(v as nat))),
                None => None,
            })
            &&& body.get("stream"@) == Some(Tree::Bool(request.stream))
            &&& match body.get("metadata"@) {
                None => request.metadata.user_id is None,
                Some(metadata) => match request.metadata.user_id {
                    Some(user_id) => metadata.get("user_id"@) == Some(Tree::Text(user_id@)),
                    None => false,
                },
            }
            &&& match body.get("stop_sequences"@) {
                None => options.stop_sequences@.len() == 0,
                Some(Tree::Array(items)) => {
                    &&& options.stop_sequences@.len() > 0
                    &&& items.len() == options.stop_sequences@.len()
                    &&& forall|i: int|
                        0 <= i < items.len() ==> #[trigger] items[i] == Tree::Text(
                            options.stop_sequences@[i]@,
                        )
                },
                _ => false,
            }
        }),
{
    broadcast use {member_after_optional, member_after_set, member_of_nothing};

    lemma_names();
    lemma_inner_names();
}

/// Each message is read back at its place, under its role and with its blocks.
/// Everything but the assistant speaks as the user.
pub proof fn messages_are_read_back(request: CanonicalRequest, target: BackendTarget)
    ensures
        match messages_body(request, target).get("messages"@) {
            Some(Tree::Array(items)) => {
                &&& items.len() == request.messages@.len()
                &&& forall|i: int|
                    0 <= i < items.len() ==> is_message(#[trigger] items[i], request.messages@[i])
            },
            _ => false,
        },
{
    broadcast use {member_after_optional, member_after_set, member_of_nothing};

    lemma_names();
    let items = Seq::new(
        request.messages@.len(),
        |i: int| message_tree(request.messages@[i]),
    );
    assert(messages_body(request, target).get("messages"@) == Some(Tree::Array(items)));
    assert forall|i: int| 0 <= i < items.len() implies is_message(
        #[trigger] items[i],
        request.messages@[i],
    ) by {
        lemma_message(request.messages@[i]);
    }
}

/// Whether a value is a message.
pub open spec fn is_message(value: Tree, message: Message) -> bool {
    &&& value.get("role"@) == Some(
        Tree::Text(
            if message.role == MessageRole::Assistant {
                "assistant"@
            } else {
                "user"@
            },
        ),
    )
    &&& value.get("content"@) == Some(Tree::Array(block_trees(message.content@)))
}

proof fn lemma_message(message: Message)
    ensures
        is_message(message_tree(message), message),
{
    broadcast use {member_after_optional, member_after_set, member_of_nothing};

    lemma_inner_names();
}

/// The cache marker that a block carries, under its name or its older name.
pub open spec fn marker(extensions: Seq<(Seq<char>, Tree)>) -> Option<Tree> {
    if member(extensions, "anthropic.cache_control"@) is Some {
        member(extensions, "anthropic.cache_control"@)
    } else {
        member(extensions, "cache_control"@)
    }
}

/// The signature that a block carries, under its name or its older name.
pub open spec fn signed(extensions: Seq<(Seq<char>, Tree)>) -> Option<Tree> {
    let value = if member(extensions, "anthropic.signature"@) is Some {
        member(extensions, "anthropic.signature"@)
    } else {
        member(extensions, "signature"@)
    };
    match value {
        Some(Tree::Text(s)) => value,
        _ => None,
    }
}

/// Whether a value is the source of an image.
pub open spec fn is_source(value: Option<Tree>, source: BinarySource) -> bool {
    match (value, source) {
        (Some(v), BinarySource::Base64 { media_type, data }) => {
            &&& v.get("type"@) == Some(Tree::Text("base64"@))
            &&& v.get("media_type"@) == Some(Tree::Text(media_type@))
            &&& v.get("data"@) == Some(Tree::Text(base64_text(data@)))
        },
        (Some(v), BinarySource::Url { url }) => {
            &&& v.get("type"@) == Some(Tree::Text("url"@))
            &&& v.get("url"@) == Some(Tree::Text(url@))
        },
        _ => false,
    }
}

/// Whether a value is a block, with all that the block says.
pub open spec fn is_block(value: Tree, block: ContentBlock) -> bool {
    match block {
        ContentBlock::Text(t) => {
            &&& value.get("type"@) == Some(Tree::Text("text"@))
            &&& value.get("text"@) == Some(Tree::Text(t.text@))
            &&& value.get("cache_control"@) == marker(t.extensions@)
        },
        ContentBlock::Image(image) => {
            &&& value.get("type"@) == Some(Tree::Text("image"@))
            &&& is_source(value.get("source"@), image.source)
            &&& value.get("cache_control"@) == marker(image.extensions@)
        },
        ContentBlock::ToolCall(call) => {
            &&& value.get("type"@) == Some(Tree::Text("tool_use"@))
            &&& value.get("id"@) == Some(Tree::Text(call.id.0@))
            &&& value.get("name"@) == Some(Tree::Text(call.name@))
            &&& value.get("input"@) == Some(
                match call.arguments {
                    ToolCallArguments::Complete { value } => value@,
                    ToolCallArguments::Streaming { data } => match parsed_text(data@) {
                        Ok(tree) => tree,
                        Err(_) => Tree::Object(seq![]),
                    },
                },
            )
            &&& value.get("cache_control"@) == marker(call.extensions@)
        },
        ContentBlock::ToolResult(result) => {
            &&& value.get("type"@) == Some(Tree::Text("tool_result"@))
            &&& value.get("tool_use_id"@) == Some(Tree::Text(result.tool_call_id.0@))
            &&& value.get("is_error"@) == (if result.is_error {
                Some(Tree::Bool(true))
            } else {
                None
            })
            &&& value.get("content"@) == (match result.content@ {
                Tree::Null => None,
                Tree::Text(_) | Tree::Array(_) => Some(result.content@),
                _ => Some(Tree::Text(result.content@.compact())),
            })
            &&& value.get("cache_control"@) == marker(result.extensions@)
        },
        ContentBlock::Reasoning(r) => {
            &&& value.get("type"@) == Some(Tree::Text("thinking"@))
            &&& value.get("thinking"@) == Some(Tree::Text(r.text@))
            &&& value.get("signature"@) == signed(r.extensions@)
        },
        ContentBlock::RedactedReasoning(r) => {
            &&& value.get("type"@) == Some(Tree::Text("redacted_thinking"@))
            &&& value.get("data"@) == Some(Tree::Text(r.data@))
        },
        _ => false,
    }
}

/// Whether the API has a form for a block.
pub open spec fn has_form(block: ContentBlock) -> bool {
    match block {
        ContentBlock::Image(image) => image.source is Base64 || image.source is Url,
        ContentBlock::Audio(_) | ContentBlock::File(_) | ContentBlock::Unsupported(_) => false,
        _ => true,
    }
}

/// One more block adds its form behind those of the others, with all that it
/// says; a block without a form adds nothing.
pub proof fn block_adds_its_form(before: Seq<ContentBlock>, block: ContentBlock)
    ensures
        block_trees(Seq::empty()).len() == 0,
        ({
            let old_trees = block_trees(before);
            let trees = block_trees(before.push(block));
            if has_form(block) {
                &&& trees.len() == old_trees.len() + 1
                &&& trees.drop_last() == old_trees
                &&& is_block(trees.last(), block)
            } else {
                trees == old_trees
            }
        }),
{
    broadcast use {member_after_optional, member_after_set, member_of_nothing};

    lemma_inner_names();
    assert(before.push(block).drop_last() =~= before);
    if let Some(tree) = block_tree(block) {
        assert(block_trees(before.push(block)) == block_trees(before).push(tree));
        assert(block_trees(before).push(tree).drop_last() =~= block_trees(before));
    }
}

/// A text block without extensions.
pub open spec fn is_plain(block: ContentBlock) -> bool {
    block is Text && block->Text_0.extensions@.len() == 0
}

/// The texts of the text blocks, with an empty line between.
pub open spec fn paragraphs(blocks: Seq<ContentBlock>) -> Option<Seq<char>>
    decreases blocks.len(),
{
    if blocks.len() == 0 {
        None
    } else {
        match (blocks.last(), paragraphs(blocks.drop_last())) {
            (ContentBlock::Text(t), Some(before)) => Some(before + "\n\n"@ + t.text@),
            (ContentBlock::Text(t), None) => Some(t.text@),
            (_, before) => before,
        }
    }
}

proof fn lemma_paragraphs(blocks: Seq<ContentBlock>)
    ensures
        paragraphs(blocks) is None <==> block_texts(blocks).len() == 0,
        joined(block_texts(blocks), "\n\n"@) == (match paragraphs(blocks) {
            Some(text) => text,
            None => seq![],
        }),
    decreases blocks.len(),
{
    if blocks.len() > 0 {
        let before = blocks.drop_last();
        lemma_paragraphs(before);
        if let ContentBlock::Text(t) = blocks.last() {
            assert(block_texts(before).push(t.text@).drop_last() =~= block_texts(before));
        }
    }
}

/// The system prompt: the texts of all instructions as paragraphs where every
/// block is a plain text, the list of blocks where one is not, and nothing where
/// there is nothing to say.
pub proof fn system_is_read_back(request: CanonicalRequest, target: BackendTarget)
    ensures
        ({
            let blocks = system_blocks(request.system@);
            let value = messages_body(request, target).get("system"@);
            if forall|i: int| 0 <= i < blocks.len() ==> is_plain(#[trigger] blocks[i]) {
                value == (match paragraphs(blocks) {
                    Some(text) => if text.len() > 0 {
                        Some(Tree::Text(text))
                    } else {
                        None
                    },
                    None => None,
                })
            } else {
                value == (if block_trees(blocks).len() > 0 {
                    Some(Tree::Array(block_trees(blocks)))
                } else {
                    None
                })
            }
        }),
{
    broadcast use {member_after_optional, member_after_set, member_of_nothing};

    lemma_names();
    let blocks = system_blocks(request.system@);
    lemma_paragraphs(blocks);
    if forall|i: int| 0 <= i < blocks.len() ==> is_plain(#[trigger] blocks[i]) {
        assert forall|i: int| 0 <= i < blocks.len() implies super::request::is_simple(
            #[trigger] blocks[i],
        ) by {
            assert(is_plain(blocks[i]));
        }
    } else {
        let i = choose|i: int| 0 <= i < blocks.len() && !is_plain(#[trigger] blocks[i]);
        assert(!super::request::is_simple(blocks[i]));
    }
}

/// The blocks of the instructions come in order.
pub proof fn instructions_come_in_order(before: Seq<SystemInstruction>, next: SystemInstruction)
    ensures
        system_blocks(Seq::empty()).len() == 0,
        system_blocks(before.push(next)) == system_blocks(before) + next.content@,
{
    assert(before.push(next).drop_last() =~= before);
}

/// Each tool is read back at its place, with its name, description, schema and
/// cache marker. The choice of a tool is read back, and left out where it is up
/// to the model.
pub proof fn tools_are_read_back(request: CanonicalRequest, target: BackendTarget)
    ensures
        ({
            let body = messages_body(request, target);
            let tools = request.tools@;
            &&& match body.get("tools"@) {
                None => tools.len() == 0,
                Some(Tree::Array(items)) => {
                    &&& tools.len() > 0
                    &&& items.len() == tools.len()
                    &&& forall|i: int|
                        0 <= i < items.len() ==> is_tool(#[trigger] items[i], tools[i])
                },
                _ => false,
            }
            &&& match (request.tool_choice, body.get("tool_choice"@)) {
                (ToolChoice::Auto, None) => true,
                (ToolChoice::Required, Some(c)) => c.get("type"@) == Some(Tree::Text("any"@)),
                (ToolChoice::Off, Some(c)) => c.get("type"@) == Some(Tree::Text("none"@)),
                (ToolChoice::Specific { name }, Some(c)) => {
                    &&& c.get("type"@) == Some(Tree::Text("tool"@))
                    &&& c.get("name"@) == Some(Tree::Text(name@))
                },
                _ => false,
            }
        }),
{
    broadcast use {member_after_optional, member_after_set, member_of_nothing};

    lemma_names();
    lemma_inner_names();
    let body = messages_body(request, target);
    if request.tools@.len() > 0 {
        let items = Seq::new(request.tools@.len(), |i: int| tool_tree(request.tools@[i]));
        assert(body.get("tools"@) == Some(Tree::Array(items)));
        assert forall|i: int| 0 <= i < items.len() implies is_tool(
            #[trigger] items[i],
            request.tools@[i],
        ) by {
            lemma_tool(request.tools@[i]);
        }
    }
    assert(body.get("tool_choice"@) == choice_tree(request.tool_choice));
}

/// Whether a value is the declaration of a tool.
pub open spec fn is_tool(value: Tree, tool: ToolDefinition) -> bool {
    &&& value.get("name"@) == Some(Tree::Text(tool.name@))
    &&& value.get("description"@) == (match tool.description {
        Some(text) => Some(Tree::Text(text@)),
        None => None,
    })
    &&& value.get("input_schema"@) == Some(tool.input_schema@)
    &&& value.get("cache_control"@) == marker(tool.extensions@)
}

proof fn lemma_tool(tool: ToolDefinition)
    ensures
        is_tool(tool_tree(tool), tool),
{
    broadcast use {member_after_optional, member_after_set, member_of_nothing};

    lemma_inner_names();
}

/// Whether a header turns the effort extension of the API on.
pub open spec fn turns_effort_on(headers: Seq<(String, String)>) -> bool {
    exists|i: int, at: int|
        {
            &&& 0 <= i < headers.len()
            &&& (#[trigger] headers[i]).0@ == "anthropic-beta"@
            &&& 0 <= at
            &&& at + "effort-2025-11-24"@.len() <= headers[i].1@.len()
            &&& #[trigger] headers[i].1@.subrange(at, at + "effort-2025-11-24"@.len())
                == "effort-2025-11-24"@
        }
}

/// How many tokens an effort is worth.
pub open spec fn worth(effort: ReasoningEffort) -> nat {
    match effort {
        ReasoningEffort::Minimal => 128,
        ReasoningEffort::Low => 512,
        ReasoningEffort::Medium => 2048,
        ReasoningEffort::High => 8192,
        ReasoningEffort::Xhigh | ReasoningEffort::Max => 16384,
    }
}

/// How thinking is asked for. Under the effort extension, where an effort is
/// known, it is left to the model, and the effort is named; the request's comes
/// before the policy's. Elsewhere it is a budget: one that the request names, or
/// what its effort is worth, or else the same of the policy. Where none of these
/// is known there is neither.
pub proof fn thinking_is_read_back(request: CanonicalRequest, target: BackendTarget)
    ensures
        ({
            let body = messages_body(request, target);
            let own = request.generation.reasoning;
            let policy = request.resolved_policy;
            let own_effort = if own is Some {
                own->0.effort
            } else {
                None
            };
            let effort = if own_effort is Some {
                own_effort
            } else {
                policy.reasoning_effort
            };
            let thinking = body.get("thinking"@);
            let output = body.get("output_config"@);
            if turns_effort_on(policy.anthropic_headers@) && effort is Some {
                &&& thinking is Some
                &&& thinking->0.get("type"@) == Some(Tree::Text("adaptive"@))
                &&& thinking->0.get("budget_tokens"@) is None
                &&& output is Some
                &&& output->0.get("effort"@) == Some(
                    Tree::Text(
                        match effort->0 {
                            ReasoningEffort::Minimal => "low"@,
                            ReasoningEffort::Low => "low"@,
                            ReasoningEffort::Medium => "medium"@,
                            ReasoningEffort::High => "high"@,
                            ReasoningEffort::Xhigh => "xhigh"@,
                            ReasoningEffort::Max => "max"@,
                        },
                    ),
                )
            } else {
                let budget: Option<nat> = if own is Some && own->0.budget_tokens is Some {
                    Some(own->0.budget_tokens->0 as nat)
                } else if own_effort is Some {
                    Some(worth(own_effort->0))
                } else if policy.reasoning_budget_tokens is Some {
                    Some(policy.reasoning_budget_tokens->0 as nat)
                } else if policy.reasoning_effort is Some {
                    Some(worth(policy.reasoning_effort->0))
                } else {
                    None
                };
                &&& output is None
                &&& match (budget, thinking) {
                    (Some(n), Some(t)) => {
                        &&& t.get("type"@) == Some(Tree::Text("enabled"@))
                        &&& t.get("budget_tokens"@) == Some(Tree::Number(decimal(n)))
                    },
                    (None, None) => true,
                    _ => false,
                }
            }
        }),
{
    broadcast use {member_after_optional, member_after_set, member_of_nothing};

    lemma_names();
    lemma_inner_names();
    let headers = request.resolved_policy.anthropic_headers@;
    if turns_effort_on(headers) {
        let (i, at) = choose|i: int, at: int|
            {
                &&& 0 <= i < headers.len()
                &&& (#[trigger] headers[i]).0@ == "anthropic-beta"@
                &&& 0 <= at
                &&& at + "effort-2025-11-24"@.len() <= headers[i].1@.len()
                &&& #[trigger] headers[i].1@.subrange(at, at + "effort-2025-11-24"@.len())
                    == "effort-2025-11-24"@
            };
        assert(super::request::enables_effort(headers[i]));
    }
    if super::request::effort_enabled(headers) {
        let i = choose|i: int|
            0 <= i < headers.len() && super::request::enables_effort(#[trigger] headers[i]);
        let part = "effort-2025-11-24"@;
        let text = headers[i].1@;
        let at = choose|at: int|
            0 <= at && at + part.len() <= text.len() && #[trigger] text.subrange(
                at,
                at + part.len(),
            ) == part;
        assert(headers[i].1@.subrange(at, at + part.len()) == part);
    }
    assert(forall|e: ReasoningEffort| #[trigger] effort_budget(e) == worth(e));
}

} // verus!
