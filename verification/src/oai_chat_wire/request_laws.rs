//! What a chat-completions body says, read back from the body.
use vstd::prelude::*;

use super::canonical_to_chat::{
    calls_of, chat_body, choice_tree, content_of, encoded_message, encoded_messages, encoded_system,
    message_tree, message_trees, part_of, parts_of, result_text, results_of, text_of, tool_tree,
    without_results, block_texts, result_item_text,
};
use crate::canonical::{
    BackendTarget, BinarySource, CanonicalRequest, ContentBlock, Message, MessageRole,
    ReasoningEffort, ResponseFormat, SystemInstruction, SystemSource, ToolCallArguments,
    ToolCallBlock, ToolChoice, ToolDefinition, ToolResultBlock,
};
use crate::json::{member_after_optional, member_after_set, member_of_nothing, tag, Tree};
use crate::media::base64_text;
use crate::text::{decimal, joined};

verus! {

/// The names of the members of a body differ.
proof fn lemma_names()
    ensures
        tag("model"@) == 6100108,
        tag("messages"@) == 9099815,
        tag("max_tokens"@) == 11101215,
        tag("temperature"@) == 12171501,
        tag("top_p"@) == 6171312,
        tag("presence_penalty"@) == 17129621,
        tag("frequency_penalty"@) == 18032221,
        tag("stop"@) == 5161212,
        tag("seed"@) == 5160200,
        tag("response_format"@) == 16150216,
        tag("tools"@) == 6171215,
        tag("tool_choice"@) == 12170001,
        tag("stream"@) == 7160209,
        tag("stream_options"@) == 15161215,
        tag("reasoning_effort"@) == 17150416,
{
    reveal_strlit("model");
    reveal_strlit("messages");
    reveal_strlit("max_tokens");
    reveal_strlit("temperature");
    reveal_strlit("top_p");
    reveal_strlit("presence_penalty");
    reveal_strlit("frequency_penalty");
    reveal_strlit("stop");
    reveal_strlit("seed");
    reveal_strlit("response_format");
    reveal_strlit("tools");
    reveal_strlit("tool_choice");
    reveal_strlit("stream");
    reveal_strlit("stream_options");
    reveal_strlit("reasoning_effort");
}

/// The names of the members inside a body differ.
proof fn lemma_inner_names()
    ensures
        tag("role"@) == 5150901,
        tag("content"@) == 8001716,
        tag("name"@) == 5111001,
        tag("tool_calls"@) == 11170015,
        tag("tool_call_id"@) == 13169800,
        tag("type"@) == 5171301,
        tag("text"@) == 5172116,
        tag("image_url"@) == 10060208,
        tag("url"@) == 4181508,
        tag("id"@) == 3060100,
        tag("function"@) == 9031710,
        tag("arguments"@) == 9981015,
        tag("description"@) == 12010610,
        tag("parameters"@) == 11130215,
        tag("json_schema"@) == 12071597,
        tag("schema"@) == 7160197,
        tag("strict"@) == 7160616,
        tag("include_usage"@) == 14060201,
{
    reveal_strlit("role");
    reveal_strlit("content");
    reveal_strlit("name");
    reveal_strlit("tool_calls");
    reveal_strlit("tool_call_id");
    reveal_strlit("type");
    reveal_strlit("text");
    reveal_strlit("image_url");
    reveal_strlit("url");
    reveal_strlit("id");
    reveal_strlit("function");
    reveal_strlit("arguments");
    reveal_strlit("description");
    reveal_strlit("parameters");
    reveal_strlit("json_schema");
    reveal_strlit("schema");
    reveal_strlit("strict");
    reveal_strlit("include_usage");
}

/// Every option of a request is read back from the body under its own name, as
/// it was given, and is missing where it was not given.
pub proof fn options_are_read_back(
    request: CanonicalRequest,
    target: BackendTarget,
    accepts_xhigh: bool,
)
    ensures
        ({
            let body = chat_body(request, target, accepts_xhigh);
            let options = request.generation;
            &&& body.get("model"@) == Some(Tree::Text(target.model@))
            &&& body.get("max_tokens"@) == (match options.max_tokens {
                Some(v) => Some(Tree::Number(decimal(v as nat))),
                None => None,
            })
            &&& body.get("temperature"@) == (match options.temperature {
                Some(v) => Some(v@),
                None => None,
            })
            &&& body.get("top_p"@) == (match options.top_p {
                Some(v) => Some(v@),
                None => None,
            })
            &&& body.get("presence_penalty"@) == (match options.presence_penalty {
                Some(v) => Some(v@),
                None => None,
            })
            &&& body.get("frequency_penalty"@) == (match options.frequency_penalty {
                Some(v) => Some(v@),
                None => None,
            })
            &&& body.get("seed"@) == (match options.seed {
                Some(v) => Some(Tree::Number(decimal(v as nat))),
                None => None,
            })
            &&& body.get("stream"@) == Some(Tree::Bool(request.stream))
        }),
{
    broadcast use {member_after_optional, member_after_set, member_of_nothing};

    lemma_names();
}

/// The stop sequences are read back in order; there is no member without them.
/// Usage is asked for in a stream, and only there.
pub proof fn stops_and_stream_options_are_read_back(
    request: CanonicalRequest,
    target: BackendTarget,
    accepts_xhigh: bool,
)
    ensures
        ({
            let body = chat_body(request, target, accepts_xhigh);
            let stops = request.generation.stop_sequences@;
            &&& match body.get("stop"@) {
                None => stops.len() == 0,
                Some(Tree::Array(items)) => {
                    &&& stops.len() > 0
                    &&& items.len() == stops.len()
                    &&& forall|i: int|
                        0 <= i < items.len() ==> #[trigger] items[i] == Tree::Text(stops[i]@)
                },
                _ => false,
            }
            &&& match body.get("stream_options"@) {
                None => !request.stream,
                Some(options) => request.stream && options.get("include_usage"@) == Some(
                    Tree::Bool(true),
                ),
            }
        }),
{
    broadcast use {member_after_optional, member_after_set, member_of_nothing};

    lemma_names();
    lemma_inner_names();
}

/// The effort that the policy came to is named in the body. What is above
/// `high` is `xhigh` for an upstream that accepts it, and `high` for others.
pub proof fn effort_is_read_back(
    request: CanonicalRequest,
    target: BackendTarget,
    accepts_xhigh: bool,
)
    ensures
        chat_body(request, target, accepts_xhigh).get("reasoning_effort"@) == (
        match request.resolved_policy.reasoning_effort {
            None => None,
            Some(ReasoningEffort::Minimal) => Some(Tree::Text("minimal"@)),
            Some(ReasoningEffort::Low) => Some(Tree::Text("low"@)),
            Some(ReasoningEffort::Medium) => Some(Tree::Text("medium"@)),
            Some(ReasoningEffort::High) => Some(Tree::Text("high"@)),
            Some(ReasoningEffort::Xhigh) | Some(ReasoningEffort::Max) => if accepts_xhigh {
                Some(Tree::Text("xhigh"@))
            } else {
                Some(Tree::Text("high"@))
            },
        }),
{
    broadcast use {member_after_optional, member_after_set, member_of_nothing};

    lemma_names();
}

/// Each tool is read back at its place, with its name, description and schema.
/// The choice of a tool is sent along with tools, and only then.
pub proof fn tools_are_read_back(
    request: CanonicalRequest,
    target: BackendTarget,
    accepts_xhigh: bool,
)
    ensures
        ({
            let body = chat_body(request, target, accepts_xhigh);
            let tools = request.tools@;
            &&& match body.get("tools"@) {
                None => tools.len() == 0,
                Some(Tree::Array(items)) => {
                    &&& tools.len() > 0
                    &&& items.len() == tools.len()
                    &&& forall|i: int|
                        0 <= i < items.len() ==> is_function(#[trigger] items[i], tools[i])
                },
                _ => false,
            }
            &&& match body.get("tool_choice"@) {
                None => tools.len() == 0,
                Some(choice) => tools.len() > 0 && is_choice(choice, request.tool_choice),
            }
        }),
{
    broadcast use {member_after_optional, member_after_set, member_of_nothing};

    lemma_names();
    let body = chat_body(request, target, accepts_xhigh);
    if request.tools@.len() > 0 {
        let items = Seq::new(request.tools@.len(), |i: int| tool_tree(request.tools@[i]));
        assert(body.get("tools"@) == Some(Tree::Array(items)));
        assert forall|i: int| 0 <= i < items.len() implies is_function(
            #[trigger] items[i],
            request.tools@[i],
        ) by {
            lemma_function(request.tools@[i]);
        }
        lemma_choice(request.tool_choice);
    }
}

/// Whether a value is the declaration of a tool.
pub open spec fn is_function(value: Tree, tool: ToolDefinition) -> bool {
    &&& value.get("type"@) == Some(Tree::Text("function"@))
    &&& match value.get("function"@) {
        Some(f) => {
            &&& f.get("name"@) == Some(Tree::Text(tool.name@))
            &&& f.get("description"@) == (match tool.description {
                Some(text) => Some(Tree::Text(text@)),
                None => None,
            })
            &&& f.get("parameters"@) == Some(tool.input_schema@)
        },
        None => false,
    }
}

proof fn lemma_function(tool: ToolDefinition)
    ensures
        is_function(tool_tree(tool), tool),
{
    broadcast use {member_after_optional, member_after_set, member_of_nothing};

    lemma_inner_names();
}

/// Whether a value names a choice of tool.
pub open spec fn is_choice(value: Tree, choice: ToolChoice) -> bool {
    match choice {
        ToolChoice::Auto => value == Tree::Text("auto"@),
        ToolChoice::Off => value == Tree::Text("none"@),
        ToolChoice::Required => value == Tree::Text("required"@),
        ToolChoice::Specific { name } => {
            &&& value.get("type"@) == Some(Tree::Text("function"@))
            &&& match value.get("function"@) {
                Some(f) => f.get("name"@) == Some(Tree::Text(name@)),
                None => false,
            }
        },
    }
}

proof fn lemma_choice(choice: ToolChoice)
    ensures
        is_choice(choice_tree(choice), choice),
{
    broadcast use {member_after_optional, member_after_set, member_of_nothing};

    lemma_inner_names();
}

/// The format of the answer is read back with its type, and a schema with its
/// name and whether it is strict.
pub proof fn format_is_read_back(
    request: CanonicalRequest,
    target: BackendTarget,
    accepts_xhigh: bool,
)
    ensures
        match chat_body(request, target, accepts_xhigh).get("response_format"@) {
            None => request.response_format is None,
            Some(value) => match request.response_format {
                None => false,
                Some(ResponseFormat::Text) => value.get("type"@) == Some(Tree::Text("text"@)),
                Some(ResponseFormat::JsonObject) => value.get("type"@) == Some(
                    Tree::Text("json_object"@),
                ),
                Some(ResponseFormat::JsonSchema { name, schema, strict }) => {
                    &&& value.get("type"@) == Some(Tree::Text("json_schema"@))
                    &&& match value.get("json_schema"@) {
                        Some(s) => {
                            &&& s.get("name"@) == Some(Tree::Text(name@))
                            &&& s.get("schema"@) == Some(schema@)
                            &&& s.get("strict"@) == Some(Tree::Bool(strict))
                        },
                        None => false,
                    }
                },
            },
        },
{
    broadcast use {member_after_optional, member_after_set, member_of_nothing};

    lemma_names();
    lemma_inner_names();
}

// ---------------------------------------------------------------------------
// Messages
// ---------------------------------------------------------------------------

/// The messages of a body: first one for each system instruction, under the
/// role of its dialect and with its text, then those of the conversation.
pub proof fn messages_are_read_back(
    request: CanonicalRequest,
    target: BackendTarget,
    accepts_xhigh: bool,
)
    ensures
        match chat_body(request, target, accepts_xhigh).get("messages"@) {
            Some(Tree::Array(items)) => {
                let n = request.system@.len() as int;
                &&& items.len() >= n
                &&& forall|i: int|
                    0 <= i < n ==> is_system_message(#[trigger] items[i], request.system@[i])
                &&& items.skip(n) == message_trees(encoded_messages(request.messages@, true))
            },
            _ => false,
        },
{
    broadcast use {member_after_optional, member_after_set, member_of_nothing};

    lemma_names();
    let n = request.system@.len() as int;
    let all = super::canonical_to_chat::all_messages(request, true);
    let items = message_trees(all);
    assert(chat_body(request, target, accepts_xhigh).get("messages"@) == Some(Tree::Array(items)));
    assert forall|i: int| 0 <= i < n implies is_system_message(
        #[trigger] items[i],
        request.system@[i],
    ) by {
        assert(items[i] == message_tree(encoded_system(request.system@[i])));
        lemma_message_members(encoded_system(request.system@[i]));
    }
    assert(items.skip(n) =~= message_trees(encoded_messages(request.messages@, true)));
}

/// Whether a value is the message of a system instruction.
pub open spec fn is_system_message(value: Tree, system: SystemInstruction) -> bool {
    &&& value.get("role"@) == Some(
        Tree::Text(
            if system.source == SystemSource::OpenAiDeveloper {
                "developer"@
            } else {
                "system"@
            },
        ),
    )
    &&& value.get("content"@) == Some(Tree::Text(text_of(system.content@)))
    &&& value.get("name"@) is None
    &&& value.get("tool_calls"@) is None
    &&& value.get("tool_call_id"@) is None
}

proof fn lemma_message_members(m: super::canonical_to_chat::ChatMessage)
    ensures
        message_tree(m).get("role"@) == Some(Tree::Text(m.role)),
        message_tree(m).get("content"@) == m.content,
        message_tree(m).get("name"@) == (match m.name {
            Some(s) => Some(Tree::Text(s)),
            None => None,
        }),
        message_tree(m).get("tool_calls"@) == (match m.tool_calls {
            Some(s) => Some(Tree::Array(s)),
            None => None,
        }),
        message_tree(m).get("tool_call_id"@) == (match m.tool_call_id {
            Some(s) => Some(Tree::Text(s)),
            None => None,
        }),
{
    broadcast use {member_after_optional, member_after_set, member_of_nothing};

    lemma_inner_names();
}

/// A conversation is encoded message by message, in order.
pub proof fn conversation_is_encoded_in_order(
    before: Seq<Message>,
    message: Message,
    inline_bytes: bool,
)
    ensures
        encoded_messages(Seq::empty(), inline_bytes).len() == 0,
        message_trees(encoded_messages(before.push(message), inline_bytes)) == message_trees(
            encoded_messages(before, inline_bytes),
        ) + message_trees(encoded_message(message, inline_bytes)),
{
    assert(before.push(message).drop_last() =~= before);
    assert(message_trees(encoded_messages(before.push(message), inline_bytes)) =~= message_trees(
        encoded_messages(before, inline_bytes),
    ) + message_trees(encoded_message(message, inline_bytes)));
}

/// How many blocks are tool calls.
pub open spec fn count_calls(blocks: Seq<ContentBlock>) -> nat
    decreases blocks.len(),
{
    if blocks.len() == 0 {
        0
    } else {
        count_calls(blocks.drop_last()) + (if blocks.last() is ToolCall {
            1nat
        } else {
            0nat
        })
    }
}

/// How many blocks are tool results.
pub open spec fn count_results(blocks: Seq<ContentBlock>) -> nat
    decreases blocks.len(),
{
    if blocks.len() == 0 {
        0
    } else {
        count_results(blocks.drop_last()) + (if blocks.last() is ToolResult {
            1nat
        } else {
            0nat
        })
    }
}

/// Whether a value is a tool call: with its identifier, its name and its
/// arguments, which are the JSON text of a complete value, or the text so far.
pub open spec fn is_call(value: Tree, call: ToolCallBlock) -> bool {
    &&& value.get("id"@) == Some(Tree::Text(call.id.0@))
    &&& value.get("type"@) == Some(Tree::Text("function"@))
    &&& match value.get("function"@) {
        Some(f) => {
            &&& f.get("name"@) == Some(Tree::Text(call.name@))
            &&& f.get("arguments"@) == Some(
                Tree::Text(
                    match call.arguments {
                        ToolCallArguments::Complete { value } => value@.compact(),
                        ToolCallArguments::Streaming { data } => data@,
                    },
                ),
            )
        },
        None => false,
    }
}

proof fn lemma_calls(blocks: Seq<ContentBlock>, i: int)
    requires
        0 <= i < blocks.len(),
        blocks[i] is ToolCall,
    ensures
        count_calls(blocks.take(i)) < calls_of(blocks).len(),
        is_call(calls_of(blocks)[count_calls(blocks.take(i)) as int], blocks[i]->ToolCall_0),
    decreases blocks.len(),
{
    broadcast use {member_after_optional, member_after_set, member_of_nothing};

    lemma_call_count(blocks);
    lemma_call_count(blocks.drop_last());
    if i < blocks.len() - 1 {
        lemma_calls(blocks.drop_last(), i);
        assert(blocks.drop_last().take(i) =~= blocks.take(i));
    } else {
        lemma_inner_names();
        assert(blocks.take(i) =~= blocks.drop_last());
    }
}

proof fn lemma_call_count(blocks: Seq<ContentBlock>)
    ensures
        calls_of(blocks).len() == count_calls(blocks),
    decreases blocks.len(),
{
    if blocks.len() > 0 {
        lemma_call_count(blocks.drop_last());
    }
}

proof fn lemma_result_count(blocks: Seq<ContentBlock>, name: Option<Seq<char>>)
    ensures
        results_of(blocks, name).len() == count_results(blocks),
    decreases blocks.len(),
{
    if blocks.len() > 0 {
        lemma_result_count(blocks.drop_last(), name);
    }
}

/// The role under which a message is sent.
pub open spec fn sent_role(message: Message) -> Tree {
    Tree::Text(
        match message.role {
            MessageRole::User => "user"@,
            MessageRole::Assistant => "assistant"@,
            MessageRole::Tool => "tool"@,
            MessageRole::System => if message.source == Some(SystemSource::OpenAiDeveloper) {
                "developer"@
            } else {
                "system"@
            },
        },
    )
}

/// The name under which a message is sent.
pub open spec fn sent_name(message: Message) -> Option<Tree> {
    match message.name {
        Some(s) => Some(Tree::Text(s@)),
        None => None,
    }
}

/// A message with tool calls and no tool results is one message under its role
/// and name. It has each call at its place and no others, with the call's
/// identifier, name and arguments, and the text of the message if there is any.
pub proof fn calls_are_read_back(message: Message, inline_bytes: bool)
    requires
        count_results(message.content@) == 0,
        count_calls(message.content@) > 0,
    ensures
        ({
            let blocks = message.content@;
            let out = message_trees(encoded_message(message, inline_bytes));
            &&& out.len() == 1
            &&& out[0].get("role"@) == Some(sent_role(message))
            &&& out[0].get("name"@) == sent_name(message)
            &&& out[0].get("tool_call_id"@) is None
            &&& out[0].get("content"@) == (if text_of(blocks).len() == 0 {
                None
            } else {
                Some(Tree::Text(text_of(blocks)))
            })
            &&& match out[0].get("tool_calls"@) {
                Some(Tree::Array(calls)) => {
                    &&& calls.len() == count_calls(blocks)
                    &&& forall|i: int|
                        0 <= i < blocks.len() && (#[trigger] blocks[i]) is ToolCall ==> is_call(
                            calls[count_calls(blocks.take(i)) as int],
                            blocks[i]->ToolCall_0,
                        )
                },
                _ => false,
            }
        }),
{
    let blocks = message.content@;
    let name = crate::json::opt_text(message.name);
    lemma_call_count(blocks);
    lemma_result_count(blocks, name);
    let out = encoded_message(message, inline_bytes);
    lemma_message_members(out[0]);
    assert forall|i: int| 0 <= i < blocks.len() && (
    #[trigger] blocks[i]) is ToolCall implies is_call(
        calls_of(blocks)[count_calls(blocks.take(i)) as int],
        blocks[i]->ToolCall_0,
    ) by {
        lemma_calls(blocks, i);
    }
}

/// A message with neither tool calls nor tool results is one message under its
/// role and name, with its content.
pub proof fn plain_message_is_read_back(message: Message, inline_bytes: bool)
    requires
        count_results(message.content@) == 0,
        count_calls(message.content@) == 0,
    ensures
        ({
            let out = message_trees(encoded_message(message, inline_bytes));
            &&& out.len() == 1
            &&& out[0].get("role"@) == Some(sent_role(message))
            &&& out[0].get("name"@) == sent_name(message)
            &&& out[0].get("tool_calls"@) is None
            &&& out[0].get("tool_call_id"@) is None
            &&& out[0].get("content"@) == content_of(message.content@, inline_bytes)
        }),
{
    lemma_call_count(message.content@);
    lemma_result_count(message.content@, crate::json::opt_text(message.name));
    lemma_message_members(encoded_message(message, inline_bytes)[0]);
}

/// Whether a value is the message of a tool result.
pub open spec fn is_result(value: Tree, result: ToolResultBlock, name: Option<Tree>) -> bool {
    &&& value.get("role"@) == Some(Tree::Text("tool"@))
    &&& value.get("name"@) == name
    &&& value.get("tool_calls"@) is None
    &&& value.get("tool_call_id"@) == Some(Tree::Text(result.tool_call_id.0@))
    &&& value.get("content"@) == Some(Tree::Text(result_text(result.content@)))
}

proof fn lemma_results(blocks: Seq<ContentBlock>, name: Option<Seq<char>>, i: int)
    requires
        0 <= i < blocks.len(),
        blocks[i] is ToolResult,
    ensures
        count_results(blocks.take(i)) < results_of(blocks, name).len(),
        is_result(
            message_tree(results_of(blocks, name)[count_results(blocks.take(i)) as int]),
            blocks[i]->ToolResult_0,
            match name {
                Some(s) => Some(Tree::Text(s)),
                None => None,
            },
        ),
    decreases blocks.len(),
{
    lemma_result_count(blocks, name);
    lemma_result_count(blocks.drop_last(), name);
    if i < blocks.len() - 1 {
        lemma_results(blocks.drop_last(), name, i);
        assert(blocks.drop_last().take(i) =~= blocks.take(i));
    } else {
        assert(blocks.take(i) =~= blocks.drop_last());
        lemma_message_members(results_of(blocks, name).last());
    }
}

/// A message with tool results becomes a message for each of them, in order,
/// which answers its call with the text of the result. What else the message
/// says follows in a message of its own, unless it is a message of a tool.
pub proof fn results_are_read_back(message: Message, inline_bytes: bool)
    requires
        count_results(message.content@) > 0,
    ensures
        ({
            let blocks = message.content@;
            let out = message_trees(encoded_message(message, inline_bytes));
            let n = count_results(blocks) as int;
            let rest = content_of(without_results(blocks), inline_bytes);
            &&& forall|i: int|
                0 <= i < blocks.len() && (#[trigger] blocks[i]) is ToolResult ==> is_result(
                    out[count_results(blocks.take(i)) as int],
                    blocks[i]->ToolResult_0,
                    sent_name(message),
                )
            &&& if message.role == MessageRole::Tool || rest is None {
                out.len() == n
            } else {
                &&& out.len() == n + 1
                &&& out[n].get("role"@) == Some(sent_role(message))
                &&& out[n].get("name"@) == sent_name(message)
                &&& out[n].get("content"@) == rest
                &&& out[n].get("tool_calls"@) is None
                &&& out[n].get("tool_call_id"@) is None
            }
        }),
{
    let blocks = message.content@;
    let name = crate::json::opt_text(message.name);
    lemma_result_count(blocks, name);
    let out = encoded_message(message, inline_bytes);
    assert forall|i: int| 0 <= i < blocks.len() && (
    #[trigger] blocks[i]) is ToolResult implies is_result(
        message_trees(out)[count_results(blocks.take(i)) as int],
        blocks[i]->ToolResult_0,
        sent_name(message),
    ) by {
        lemma_results(blocks, name, i);
    }
    lemma_message_members(out.last());
}

/// Tool results are left out of what else a message says, and nothing else is.
pub proof fn rest_keeps_all_but_results(before: Seq<ContentBlock>, block: ContentBlock)
    ensures
        without_results(Seq::empty()).len() == 0,
        without_results(before.push(block)) == (if block is ToolResult {
            without_results(before)
        } else {
            without_results(before).push(block)
        }),
{
    assert(before.push(block).drop_last() =~= before);
}

/// The content of a message: the text of a single text block as it is, a list
/// of parts for anything else, and nothing where there are no parts.
pub proof fn content_is_text_or_parts(blocks: Seq<ContentBlock>, inline_bytes: bool)
    ensures
        content_of(blocks, inline_bytes) == (if blocks.len() == 1 && blocks[0] is Text {
            Some(Tree::Text(blocks[0]->Text_0.text@))
        } else if parts_of(blocks, inline_bytes).len() > 0 {
            Some(Tree::Array(parts_of(blocks, inline_bytes)))
        } else {
            None
        }),
{
}

/// Whether a value is an image part that points at `url`.
pub open spec fn is_image_part(value: Tree, url: Seq<char>) -> bool {
    &&& value.get("type"@) == Some(Tree::Text("image_url"@))
    &&& match value.get("image_url"@) {
        Some(image) => image.get("url"@) == Some(Tree::Text(url)),
        None => false,
    }
}

/// One more block adds at most one part: its text, or where its image is to be
/// found. Payloads are sent in the URL itself; raw bytes only where that is
/// asked for. Other blocks, and files of a provider, add none.
pub proof fn block_adds_its_part(
    before: Seq<ContentBlock>,
    block: ContentBlock,
    inline_bytes: bool,
)
    ensures
        parts_of(Seq::empty(), inline_bytes).len() == 0,
        ({
            let old_parts = parts_of(before, inline_bytes);
            let parts = parts_of(before.push(block), inline_bytes);
            let added = parts.len() == old_parts.len() + 1 && parts.drop_last() == old_parts;
            match block {
                ContentBlock::Text(t) => {
                    &&& added
                    &&& parts.last().get("type"@) == Some(Tree::Text("text"@))
                    &&& parts.last().get("text"@) == Some(Tree::Text(t.text@))
                },
                ContentBlock::Image(image) => match image.source {
                    BinarySource::Base64 { media_type, data } => added && is_image_part(
                        parts.last(),
                        "data:"@ + media_type@ + ";base64,"@ + base64_text(data@),
                    ),
                    BinarySource::Bytes { media_type, data } => if inline_bytes {
                        added && is_image_part(
                            parts.last(),
                            "data:"@ + media_type@ + ";base64,"@ + base64_text(data@),
                        )
                    } else {
                        parts == old_parts
                    },
                    BinarySource::Url { url } => added && is_image_part(parts.last(), url@),
                    BinarySource::ProviderFileId { .. } => parts == old_parts,
                },
                _ => parts == old_parts,
            }
        }),
{
    broadcast use {member_after_optional, member_after_set, member_of_nothing};

    assert(before.push(block).drop_last() =~= before);
    lemma_inner_names();
    let old_parts = parts_of(before, inline_bytes);
    let parts = parts_of(before.push(block), inline_bytes);
    if part_of(block, inline_bytes) is Some {
        assert(parts.drop_last() =~= old_parts);
    }
}

/// The text of blocks: each text block adds its text on a line of its own, and
/// no other block adds anything.
pub proof fn text_blocks_add_lines(before: Seq<ContentBlock>, block: ContentBlock)
    ensures
        text_of(Seq::empty()).len() == 0,
        text_of(before.push(block)) == (match block {
            ContentBlock::Text(t) => if exists|i: int|
                0 <= i < before.len() && (#[trigger] before[i]) is Text {
                text_of(before) + "\n"@ + t.text@
            } else {
                t.text@
            },
            _ => text_of(before),
        }),
{
    assert(before.push(block).drop_last() =~= before);
    let old_texts = block_texts(before);
    lemma_any_text(before);
    if let ContentBlock::Text(t) = block {
        assert(old_texts.push(t.text@).drop_last() =~= old_texts);
    }
}

proof fn lemma_any_text(blocks: Seq<ContentBlock>)
    ensures
        block_texts(blocks).len() > 0 <==> exists|i: int|
            0 <= i < blocks.len() && (#[trigger] blocks[i]) is Text,
    decreases blocks.len(),
{
    if blocks.len() > 0 {
        let before = blocks.drop_last();
        lemma_any_text(before);
        if block_texts(before).len() > 0 {
            let i = choose|i: int| 0 <= i < before.len() && (#[trigger] before[i]) is Text;
            assert(blocks[i] is Text);
        }
        if blocks.last() is Text {
            assert(blocks[blocks.len() - 1] is Text);
        }
        if exists|i: int| 0 <= i < blocks.len() && (#[trigger] blocks[i]) is Text {
            let i = choose|i: int| 0 <= i < blocks.len() && (#[trigger] blocks[i]) is Text;
            if i < before.len() {
                assert(before[i] is Text);
            }
        }
    }
}

/// The text of a tool result: a string as it is, nothing for `null`, and the
/// JSON text of anything that is no list.
pub proof fn result_is_told_as_text(content: Tree)
    ensures
        match content {
            Tree::Text(s) => result_text(content) == s,
            Tree::Null => result_text(content).len() == 0,
            Tree::Array(items) => items.len() == 0 ==> result_text(content).len() == 0,
            _ => result_text(content) == content.compact(),
        },
{
}

/// Each item of a list adds a line to the text of a tool result: its `text`, or
/// the string that it is, or else its JSON text.
pub proof fn result_items_add_lines(items: Seq<Tree>, item: Tree)
    ensures
        ({
            let line = match item.get("text"@) {
                Some(Tree::Text(s)) => s,
                _ => match item {
                    Tree::Text(s) => s,
                    _ => item.compact(),
                },
            };
            result_text(Tree::Array(items.push(item))) == (if items.len() == 0 {
                line
            } else {
                result_text(Tree::Array(items)) + "\n"@ + line
            })
        }),
{
    let f = |s: Seq<Tree>| Seq::new(s.len(), |i: int| result_item_text(s[i]));
    assert(f(items.push(item)).drop_last() =~= f(items));
    assert(f(items.push(item)).last() == result_item_text(item));
    assert(result_text(Tree::Array(items.push(item))) == joined(f(items.push(item)), "\n"@));
    assert(result_text(Tree::Array(items)) == joined(f(items), "\n"@));
}

} // verus!
