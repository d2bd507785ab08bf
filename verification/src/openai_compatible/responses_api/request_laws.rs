//! What a Responses API body says, read back from the body.
use vstd::prelude::*;

use super::encode_request::{
    call_items, choice_tree, inner_systems, input_of, items_of, outputs_of, part_of, parts_of,
    responses_body, system_texts, tool_tree, tools_of,
};
use crate::canonical::{
    BackendTarget, BinarySource, CanonicalRequest, ContentBlock, Message, MessageRole,
    ReasoningEffort, SystemInstruction, ToolCallArguments, ToolChoice, ToolDefinition,
};
use crate::json::{member, member_after_optional, member_after_set, member_of_nothing, tag, Tree};
use crate::media::base64_text;
use crate::oai_chat_wire::canonical_to_chat::text_of;
use crate::text::{decimal, joined, texts};

verus! {

/// The names of the members of a body differ.
proof fn lemma_names()
    ensures
        tag("model"@) == 6100108,
        tag("stream"@) == 7160209,
        tag("input"@) == 6061316,
        tag("instructions"@) == 13060015,
        tag("tools"@) == 6171215,
        tag("tool_choice"@) == 12170001,
        tag("max_output_tokens"@) == 18101815,
        tag("temperature"@) == 12171501,
        tag("top_p"@) == 6171312,
        tag("reasoning"@) == 10151203,
{
    reveal_strlit("model");
    reveal_strlit("stream");
    reveal_strlit("input");
    reveal_strlit("instructions");
    reveal_strlit("tools");
    reveal_strlit("tool_choice");
    reveal_strlit("max_output_tokens");
    reveal_strlit("temperature");
    reveal_strlit("top_p");
    reveal_strlit("reasoning");
}

/// The names of the members inside a body differ.
proof fn lemma_inner_names()
    ensures
        tag("type"@) == 5171301,
        tag("call_id"@) == 8000900,
        tag("output"@) == 7121316,
        tag("name"@) == 5111001,
        tag("arguments"@) == 9981015,
        tag("role"@) == 5150901,
        tag("content"@) == 8001716,
        tag("image_url"@) == 10060208,
        tag("text"@) == 5172116,
        tag("description"@) == 12010610,
        tag("parameters"@) == 11130215,
        tag("effort"@) == 7021216,
{
    reveal_strlit("type");
    reveal_strlit("call_id");
    reveal_strlit("output");
    reveal_strlit("name");
    reveal_strlit("arguments");
    reveal_strlit("role");
    reveal_strlit("content");
    reveal_strlit("image_url");
    reveal_strlit("text");
    reveal_strlit("description");
    reveal_strlit("parameters");
    reveal_strlit("effort");
}

/// Every option of a request is read back from the body under its own name, as
/// it was given, and is missing where it was not given.
pub proof fn options_are_read_back(request: CanonicalRequest, target: BackendTarget)
    ensures
        ({
            let body = responses_body(request, target);
            let options = request.generation;
            &&& body.get("model"@) == Some(Tree::Text(target.model@))
            &&& body.get("stream"@) == Some(Tree::Bool(request.stream))
            &&& body.get("max_output_tokens"@) == (match options.max_tokens {
                Some(v) => Some(Tree::Number(decimal(v as nat))),
                None => None,
            })
            &&& body.get("temperature"@) == (match options.temperature {
                Some(v) => Some(v@),
                None => None,
            })
            &&& body.get("top_p"@) == (match options.top_p {
                Some(v) => Some(v@),
                None => None,
            })
        }),
{
    broadcast use {member_after_optional, member_after_set, member_of_nothing};

    lemma_names();
}

/// Each tool is read back at its place, the built-in ones behind the others.
/// The choice of a tool is sent along with tools of either sort, and only then.
pub proof fn tools_are_read_back(request: CanonicalRequest, target: BackendTarget)
    ensures
        ({
            let body = responses_body(request, target);
            let tools = request.tools@;
            let builtin = member(request.extensions@, "builtin_tools"@);
            let more = match builtin {
                Some(Tree::Array(items)) => items,
                _ => seq![],
            };
            &&& match body.get("tools"@) {
                None => tools.len() == 0 && more.len() == 0,
                Some(Tree::Array(items)) => {
                    &&& items.len() == tools.len() + more.len()
                    &&& items.len() > 0
                    &&& forall|i: int|
                        0 <= i < tools.len() ==> is_tool(#[trigger] items[i], tools[i])
                    &&& items.skip(tools.len() as int) == more
                },
                _ => false,
            }
            &&& match body.get("tool_choice"@) {
                None => tools.len() == 0 && builtin is None,
                Some(choice) => (tools.len() > 0 || builtin is Some) && is_choice(
                    choice,
                    request.tool_choice,
                ),
            }
        }),
{
    broadcast use {member_after_optional, member_after_set, member_of_nothing};

    lemma_names();
    let items = tools_of(request);
    let tools = request.tools@;
    assert forall|i: int| 0 <= i < tools.len() implies is_tool(#[trigger] items[i], tools[i]) by {
        assert(items[i] == tool_tree(tools[i]));
        lemma_tool(tools[i]);
    }
    assert(items.skip(tools.len() as int) =~= super::encode_request::builtin_tools(request));
    lemma_choice(request.tool_choice);
}

/// Whether a value is the declaration of a tool.
pub open spec fn is_tool(value: Tree, tool: ToolDefinition) -> bool {
    &&& value.get("type"@) == Some(Tree::Text("function"@))
    &&& value.get("name"@) == Some(Tree::Text(tool.name@))
    &&& value.get("description"@) == (match tool.description {
        Some(text) => Some(Tree::Text(text@)),
        None => None,
    })
    &&& value.get("parameters"@) == Some(tool.input_schema@)
}

proof fn lemma_tool(tool: ToolDefinition)
    ensures
        is_tool(tool_tree(tool), tool),
{
    broadcast use {member_after_optional, member_after_set, member_of_nothing};

    lemma_inner_names();
}

/// Whether a value names a choice of tool.
pub open spec fn is_choice(value: Tree, choice: ToolChoice) -> bool {
    match choice {
        ToolChoice::Auto => value == Tree::Text("auto"@),
        ToolChoice::Off => value == Tree::Text("none"@),
        ToolChoice::Required => value == Tree::Text("required"@),
        ToolChoice::Specific { name } => {
            &&& value.get("type"@) == Some(Tree::Text("function"@))
            &&& value.get("name"@) == Some(Tree::Text(name@))
        },
    }
}

proof fn lemma_choice(choice: ToolChoice)
    ensures
        is_choice(choice_tree(choice), choice),
{
    broadcast use {member_after_optional, member_after_set, member_of_nothing};

    lemma_inner_names();
}

/// The effort that the policy came to is named in the body: as the strongest
/// level that the model advertises up to it, and where there is none, under its
/// own name up to `high` and as `high` above.
pub proof fn effort_is_read_back(request: CanonicalRequest, target: BackendTarget)
    ensures
        ({
            let policy = request.resolved_policy;
            let value = responses_body(request, target).get("reasoning"@);
            match policy.reasoning_effort {
                None => value is None,
                Some(effort) => {
                    let own = if effort == ReasoningEffort::Xhigh || effort
                        == ReasoningEffort::Max {
                        "high"@
                    } else {
                        effort.name()
                    };
                    let name = match policy.supported_efforts {
                        Some(advertised) => match effort.clamped(texts(advertised@)) {
                            Some(clamped) => clamped,
                            None => own,
                        },
                        None => own,
                    };
                    value is Some && value->0.get("effort"@) == Some(Tree::Text(name))
                },
            }
        }),
{
    broadcast use {member_after_optional, member_after_set, member_of_nothing};

    lemma_names();
    lemma_inner_names();
}

/// The instructions are the texts of the system instructions and, behind them,
/// those of the system messages inside the conversation, each on a line of its
/// own; there is no member where there are none.
pub proof fn instructions_are_read_back(request: CanonicalRequest, target: BackendTarget)
    ensures
        ({
            let value = responses_body(request, target).get("instructions"@);
            let all = system_texts(request.system@) + inner_systems(request.messages@);
            &&& all.len() == 0 <==> value is None
            &&& all.len() > 0 ==> value == Some(Tree::Text(joined(all, "\n"@)))
        }),
{
    broadcast use {member_after_optional, member_after_set, member_of_nothing};

    lemma_names();
}

/// Every instruction has its text at its place, and of the messages inside the
/// conversation exactly the system messages that say something add theirs.
pub proof fn instructions_come_in_order(
    systems: Seq<SystemInstruction>,
    before: Seq<Message>,
    message: Message,
)
    ensures
        system_texts(systems).len() == systems.len(),
        forall|i: int|
            0 <= i < systems.len() ==> #[trigger] system_texts(systems)[i] == text_of(
                systems[i].content@,
            ),
        inner_systems(Seq::empty()).len() == 0,
        inner_systems(before.push(message)) == (if message.role == MessageRole::System && text_of(
            message.content@,
        ).len() > 0 {
            inner_systems(before).push(text_of(message.content@))
        } else {
            inner_systems(before)
        }),
{
    assert(before.push(message).drop_last() =~= before);
}

/// The input is the items of the conversation, message by message.
pub proof fn input_is_read_back(
    request: CanonicalRequest,
    target: BackendTarget,
    before: Seq<Message>,
    message: Message,
)
    ensures
        responses_body(request, target).get("input"@) == Some(
            Tree::Array(input_of(request.messages@)),
        ),
        input_of(Seq::empty()).len() == 0,
        input_of(before.push(message)) == input_of(before) + items_of(message),
{
    broadcast use {member_after_optional, member_after_set, member_of_nothing};

    lemma_names();
    assert(before.push(message).drop_last() =~= before);
}

/// Whether a value is a message item.
pub open spec fn is_message(value: Tree, role: Seq<char>, content: Tree) -> bool {
    &&& value.get("type"@) == Some(Tree::Text("message"@))
    &&& value.get("role"@) == Some(Tree::Text(role))
    &&& value.get("content"@) == Some(content)
}

/// The items of a message. A message of a tool is its outputs, and a system
/// message has none. A message with calls is its text, if there is any, and then
/// its calls. Any other is one message under its role: its text, or a list of
/// parts where it holds an image.
pub proof fn message_is_read_back(message: Message)
    ensures
        ({
            let blocks = message.content@;
            let items = items_of(message);
            let text = text_of(blocks);
            let calls = call_items(blocks);
            let role = if message.role == MessageRole::User {
                "user"@
            } else {
                "assistant"@
            };
            match message.role {
                MessageRole::Tool => items == outputs_of(blocks),
                MessageRole::System => items.len() == 0,
                _ => if calls.len() > 0 && text.len() == 0 {
                    items == calls
                } else if calls.len() > 0 {
                    &&& items.len() == calls.len() + 1
                    &&& items.skip(1) == calls
                    &&& is_message(items[0], role, Tree::Text(text))
                } else {
                    &&& items.len() == 1
                    &&& if exists|i: int| 0 <= i < blocks.len() && (#[trigger] blocks[i]) is Image {
                        is_message(items[0], role, Tree::Array(parts_of(blocks)))
                    } else {
                        is_message(items[0], role, Tree::Text(text))
                    }
                },
            }
        }),
{
    broadcast use {member_after_optional, member_after_set, member_of_nothing};

    lemma_inner_names();
    let calls = call_items(message.content@);
    if (message.role is User || message.role is Assistant) && calls.len() > 0 && text_of(
        message.content@,
    ).len() > 0 {
        assert(items_of(message).skip(1) =~= calls);
    }
}

/// One more block adds a call item if it is a tool call, with its identifier,
/// name and arguments, and an output item if it is a tool result, which answers
/// the call with its text or its JSON text. Other blocks add neither.
pub proof fn block_adds_its_items(before: Seq<ContentBlock>, block: ContentBlock)
    ensures
        call_items(Seq::empty()).len() == 0,
        outputs_of(Seq::empty()).len() == 0,
        ({
            let calls = call_items(before.push(block));
            match block {
                ContentBlock::ToolCall(call) => {
                    let item = calls.last();
                    &&& calls.len() == call_items(before).len() + 1
                    &&& calls.drop_last() == call_items(before)
                    &&& item.get("type"@) == Some(Tree::Text("function_call"@))
                    &&& item.get("call_id"@) == Some(Tree::Text(call.id.0@))
                    &&& item.get("name"@) == Some(Tree::Text(call.name@))
                    &&& item.get("arguments"@) == Some(
                        Tree::Text(
                            match call.arguments {
                                ToolCallArguments::Complete { value } => value@.compact(),
                                ToolCallArguments::Streaming { data } => data@,
                            },
                        ),
                    )
                },
                _ => calls == call_items(before),
            }
        }),
        ({
            let outputs = outputs_of(before.push(block));
            match block {
                ContentBlock::ToolResult(result) => {
                    let item = outputs.last();
                    &&& outputs.len() == outputs_of(before).len() + 1
                    &&& outputs.drop_last() == outputs_of(before)
                    &&& item.get("type"@) == Some(Tree::Text("function_call_output"@))
                    &&& item.get("call_id"@) == Some(Tree::Text(result.tool_call_id.0@))
                    &&& item.get("output"@) == Some(
                        match result.content@ {
                            Tree::Text(s) => Tree::Text(s),
                            other => Tree::Text(other.compact()),
                        },
                    )
                },
                _ => outputs == outputs_of(before),
            }
        }),
{
    broadcast use {member_after_optional, member_after_set, member_of_nothing};

    lemma_inner_names();
    assert(before.push(block).drop_last() =~= before);
    if block is ToolCall {
        assert(call_items(before.push(block)).drop_last() =~= call_items(before));
    }
    if block is ToolResult {
        assert(outputs_of(before.push(block)).drop_last() =~= outputs_of(before));
    }
}

/// Whether a value is an image part that points at `url`.
pub open spec fn is_image_part(value: Tree, url: Seq<char>) -> bool {
    &&& value.get("type"@) == Some(Tree::Text("input_image"@))
    &&& value.get("image_url"@) == Some(Tree::Text(url))
}

/// One more block adds at most one part: its text, or where its image is to be
/// found. Payloads are sent in the URL itself. Other blocks, and files of a
/// provider, add none.
pub proof fn block_adds_its_part(before: Seq<ContentBlock>, block: ContentBlock)
    ensures
        parts_of(Seq::empty()).len() == 0,
        ({
            let old_parts = parts_of(before);
            let parts = parts_of(before.push(block));
            let added = parts.len() == old_parts.len() + 1 && parts.drop_last() == old_parts;
            match block {
                ContentBlock::Text(t) => {
                    &&& added
                    &&& parts.last().get("type"@) == Some(Tree::Text("input_text"@))
                    &&& parts.last().get("text"@) == Some(Tree::Text(t.text@))
                },
                ContentBlock::Image(image) => match image.source {
                    BinarySource::Base64 { media_type, data } | BinarySource::Bytes {
                        media_type,
                        data,
                    } => added && is_image_part(
                        parts.last(),
                        "data:"@ + media_type@ + ";base64,"@ + base64_text(data@),
                    ),
                    BinarySource::Url { url } => added && is_image_part(parts.last(), url@),
                    BinarySource::ProviderFileId { .. } => parts == old_parts,
                },
                _ => parts == old_parts,
            }
        }),
{
    broadcast use {member_after_optional, member_after_set, member_of_nothing};

    lemma_inner_names();
    assert(before.push(block).drop_last() =~= before);
    if part_of(block) is Some {
        assert(parts_of(before.push(block)).drop_last() =~= parts_of(before));
    }
}

} // verus!
