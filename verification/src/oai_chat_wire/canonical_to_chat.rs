//! Builds the chat-completions request body of a canonical request.
use vstd::prelude::*;

use crate::canonical::{
    BackendTarget, BinarySource, CanonicalRequest, ContentBlock, Message, MessageRole,
    ReasoningEffort, ResponseFormat, SystemInstruction, SystemSource, ToolCallArguments,
    ToolChoice, ToolDefinition,
};
use crate::json::{
    append, array_tree, copied, distinct_names, no_members, no_values, number32, number_tree,
    object1, object2, opt_nat32, opt_nat64, opt_text, opt_tree, optional_text, put, put_optional,
    setting_keeps_names_distinct, str_member, text_tree, trees, value_tree, with_member,
    with_optional, Json, Tree,
};
use crate::media::{data_uri, to_data_uri};
use crate::text::{join, joined, texts};

verus! {

// ---------------------------------------------------------------------------
// Model
// ---------------------------------------------------------------------------

/// One message of the body.
#[verifier::ext_equal]
pub struct ChatMessage {
    pub role: Seq<char>,
    pub content: Option<Tree>,
    pub name: Option<Seq<char>>,
    pub tool_calls: Option<Seq<Tree>>,
    pub tool_call_id: Option<Seq<char>>,
}

/// The JSON form of a message. What it lacks is left out.
pub open spec fn message_tree(m: ChatMessage) -> Tree {
    let role = with_member(seq![], "role"@, Tree::Text(m.role));
    let content = with_optional(role, "content"@, m.content);
    let name = with_optional(content, "name"@, text_tree(m.name));
    let calls = with_optional(name, "tool_calls"@, array_tree(m.tool_calls));
    Tree::Object(with_optional(calls, "tool_call_id"@, text_tree(m.tool_call_id)))
}

/// The texts of the text blocks, in order.
pub open spec fn block_texts(blocks: Seq<ContentBlock>) -> Seq<Seq<char>>
    decreases blocks.len(),
{
    if blocks.len() == 0 {
        seq![]
    } else {
        let before = block_texts(blocks.drop_last());
        match blocks.last() {
            ContentBlock::Text(t) => before.push(t.text@),
            _ => before,
        }
    }
}

/// The texts of the text blocks, one per line.
pub open spec fn text_of(blocks: Seq<ContentBlock>) -> Seq<char> {
    joined(block_texts(blocks), "\n"@)
}

/// The text of the blocks as a value, if there is any.
pub open spec fn text_content(blocks: Seq<ContentBlock>) -> Option<Tree> {
    if text_of(blocks).len() == 0 {
        None
    } else {
        Some(Tree::Text(text_of(blocks)))
    }
}

/// An image part that points at `url`.
pub open spec fn image_part(url: Seq<char>) -> Tree {
    Tree::Object(
        object2(
            "type"@,
            Tree::Text("image_url"@),
            "image_url"@,
            Tree::Object(object1("url"@, Tree::Text(url))),
        ),
    )
}

/// The content part of a block, if it has one. An image is sent by its URL or
/// as a data URI; raw bytes only where `inline_bytes` holds.
pub open spec fn part_of(block: ContentBlock, inline_bytes: bool) -> Option<Tree> {
    match block {
        ContentBlock::Text(t) => Some(
            Tree::Object(object2("type"@, Tree::Text("text"@), "text"@, Tree::Text(t.text@))),
        ),
        ContentBlock::Image(image) => match image.source {
            BinarySource::Base64 { media_type, data } => Some(
                image_part(data_uri(media_type@, data@)),
            ),
            BinarySource::Bytes { media_type, data } => if inline_bytes {
                Some(image_part(data_uri(media_type@, data@)))
            } else {
                None
            },
            BinarySource::Url { url } => Some(image_part(url@)),
            BinarySource::ProviderFileId { .. } => None,
        },
        _ => None,
    }
}

/// The content parts of the blocks, in order.
pub open spec fn parts_of(blocks: Seq<ContentBlock>, inline_bytes: bool) -> Seq<Tree>
    decreases blocks.len(),
{
    if blocks.len() == 0 {
        seq![]
    } else {
        let before = parts_of(blocks.drop_last(), inline_bytes);
        match part_of(blocks.last(), inline_bytes) {
            Some(part) => before.push(part),
            None => before,
        }
    }
}

/// The content of a message: a single text block is a plain string, anything
/// else a list of parts, and nothing where there are no parts.
pub open spec fn content_of(blocks: Seq<ContentBlock>, inline_bytes: bool) -> Option<Tree> {
    if blocks.len() == 1 && blocks[0] is Text {
        Some(Tree::Text(blocks[0]->Text_0.text@))
    } else if parts_of(blocks, inline_bytes).len() == 0 {
        None
    } else {
        Some(Tree::Array(parts_of(blocks, inline_bytes)))
    }
}

/// The text of a tool call's arguments.
pub open spec fn arguments_text(arguments: ToolCallArguments) -> Seq<char> {
    match arguments {
        ToolCallArguments::Complete { value } => value@.compact(),
        ToolCallArguments::Streaming { data } => data@,
    }
}

/// The JSON form of a tool call.
pub open spec fn call_tree(id: Seq<char>, name: Seq<char>, arguments: Seq<char>) -> Tree {
    Tree::Object(
        with_member(
            object2("id"@, Tree::Text(id), "type"@, Tree::Text("function"@)),
            "function"@,
            Tree::Object(
                object2("name"@, Tree::Text(name), "arguments"@, Tree::Text(arguments)),
            ),
        ),
    )
}

/// The tool calls of the blocks, in order.
pub open spec fn calls_of(blocks: Seq<ContentBlock>) -> Seq<Tree>
    decreases blocks.len(),
{
    if blocks.len() == 0 {
        seq![]
    } else {
        let before = calls_of(blocks.drop_last());
        match blocks.last() {
            ContentBlock::ToolCall(tc) => before.push(
                call_tree(tc.id.0@, tc.name@, arguments_text(tc.arguments)),
            ),
            _ => before,
        }
    }
}

/// The text of one item of a tool result.
pub open spec fn result_item_text(item: Tree) -> Seq<char> {
    match str_member(item, "text"@) {
        Some(text) => text,
        None => match item.as_str() {
            Some(text) => text,
            None => item.compact(),
        },
    }
}

/// The text of a tool result: a string as it is, the items of a list one per
/// line, nothing for `null`, and the JSON text of anything else.
pub open spec fn result_text(content: Tree) -> Seq<char> {
    match content {
        Tree::Text(s) => s,
        Tree::Array(items) => joined(
            Seq::new(items.len(), |i: int| result_item_text(items[i])),
            "\n"@,
        ),
        Tree::Null => seq![],
        _ => content.compact(),
    }
}

/// The tool messages of the blocks' tool results, in order.
pub open spec fn results_of(
    blocks: Seq<ContentBlock>,
    name: Option<Seq<char>>,
) -> Seq<ChatMessage>
    decreases blocks.len(),
{
    if blocks.len() == 0 {
        seq![]
    } else {
        let before = results_of(blocks.drop_last(), name);
        match blocks.last() {
            ContentBlock::ToolResult(tr) => before.push(
                ChatMessage {
                    role: "tool"@,
                    content: Some(Tree::Text(result_text(tr.content@))),
                    name,
                    tool_calls: None,
                    tool_call_id: Some(tr.tool_call_id.0@),
                },
            ),
            _ => before,
        }
    }
}

/// The blocks that are no tool results, in order.
pub open spec fn without_results(blocks: Seq<ContentBlock>) -> Seq<ContentBlock>
    decreases blocks.len(),
{
    if blocks.len() == 0 {
        seq![]
    } else {
        let before = without_results(blocks.drop_last());
        match blocks.last() {
            ContentBlock::ToolResult(_) => before,
            block => before.push(block),
        }
    }
}

/// The role name of a system source.
pub open spec fn system_role(developer: bool) -> Seq<char> {
    if developer {
        "developer"@
    } else {
        "system"@
    }
}

/// The role name of a message.
pub open spec fn role_of(message: Message) -> Seq<char> {
    match message.role {
        MessageRole::User => "user"@,
        MessageRole::Assistant => "assistant"@,
        MessageRole::Tool => "tool"@,
        MessageRole::System => system_role(message.source == Some(SystemSource::OpenAiDeveloper)),
    }
}

/// The messages that one canonical message becomes. Tool results come first,
/// each as a message of its own; what else the message says follows them.
pub open spec fn encoded_message(message: Message, inline_bytes: bool) -> Seq<ChatMessage> {
    let blocks = message.content@;
    let name = opt_text(message.name);
    let plain = ChatMessage {
        role: role_of(message),
        content: None,
        name,
        tool_calls: None,
        tool_call_id: None,
    };
    let results = results_of(blocks, name);
    if results.len() > 0 {
        let rest = content_of(without_results(blocks), inline_bytes);
        if message.role != MessageRole::Tool && rest is Some {
            results.push(ChatMessage { content: rest, ..plain })
        } else {
            results
        }
    } else if calls_of(blocks).len() > 0 {
        seq![
            ChatMessage {
                content: text_content(blocks),
                tool_calls: Some(calls_of(blocks)),
                ..plain
            },
        ]
    } else {
        seq![ChatMessage { content: content_of(blocks, inline_bytes), ..plain }]
    }
}

/// The messages of the conversation, in order.
pub open spec fn encoded_messages(messages: Seq<Message>, inline_bytes: bool) -> Seq<ChatMessage>
    decreases messages.len(),
{
    if messages.len() == 0 {
        seq![]
    } else {
        encoded_messages(messages.drop_last(), inline_bytes) + encoded_message(
            messages.last(),
            inline_bytes,
        )
    }
}

/// The message of a system instruction.
pub open spec fn encoded_system(system: SystemInstruction) -> ChatMessage {
    ChatMessage {
        role: system_role(system.source == SystemSource::OpenAiDeveloper),
        content: Some(Tree::Text(text_of(system.content@))),
        name: None,
        tool_calls: None,
        tool_call_id: None,
    }
}

/// All messages: the system instructions in front, then the conversation.
pub open spec fn all_messages(request: CanonicalRequest, inline_bytes: bool) -> Seq<ChatMessage> {
    Seq::new(request.system@.len(), |i: int| encoded_system(request.system@[i]))
        + encoded_messages(request.messages@, inline_bytes)
}

/// The JSON forms of messages.
pub open spec fn message_trees(messages: Seq<ChatMessage>) -> Seq<Tree> {
    Seq::new(messages.len(), |i: int| message_tree(messages[i]))
}

/// The JSON form of a tool.
pub open spec fn tool_tree(tool: ToolDefinition) -> Tree {
    let function = with_member(
        with_optional(
            object1("name"@, Tree::Text(tool.name@)),
            "description"@,
            text_tree(opt_text(tool.description)),
        ),
        "parameters"@,
        tool.input_schema@,
    );
    Tree::Object(
        object2("type"@, Tree::Text("function"@), "function"@, Tree::Object(function)),
    )
}

/// The JSON forms of the tools, if there are any.
pub open spec fn tools_tree(tools: Seq<ToolDefinition>) -> Option<Tree> {
    if tools.len() == 0 {
        None
    } else {
        Some(Tree::Array(Seq::new(tools.len(), |i: int| tool_tree(tools[i]))))
    }
}

/// The JSON form of a tool choice.
pub open spec fn choice_tree(choice: ToolChoice) -> Tree {
    match choice {
        ToolChoice::Auto => Tree::Text("auto"@),
        ToolChoice::Off => Tree::Text("none"@),
        ToolChoice::Required => Tree::Text("required"@),
        ToolChoice::Specific { name } => Tree::Object(
            object2(
                "type"@,
                Tree::Text("function"@),
                "function"@,
                Tree::Object(object1("name"@, Tree::Text(name@))),
            ),
        ),
    }
}

/// The JSON form of a response format.
pub open spec fn format_tree(format: ResponseFormat) -> Tree {
    match format {
        ResponseFormat::Text => Tree::Object(object1("type"@, Tree::Text("text"@))),
        ResponseFormat::JsonObject => Tree::Object(object1("type"@, Tree::Text("json_object"@))),
        ResponseFormat::JsonSchema { name, schema, strict } => Tree::Object(
            object2(
                "type"@,
                Tree::Text("json_schema"@),
                "json_schema"@,
                Tree::Object(
                    with_member(
                        object2("name"@, Tree::Text(name@), "schema"@, schema@),
                        "strict"@,
                        Tree::Bool(strict),
                    ),
                ),
            ),
        ),
    }
}

/// The stop sequences, if there are any.
pub open spec fn stops_tree(stops: Seq<String>) -> Option<Tree> {
    if stops.len() == 0 {
        None
    } else {
        Some(Tree::Array(Seq::new(stops.len(), |i: int| Tree::Text(stops[i]@))))
    }
}

/// The request body. What the request does not ask for is left out, and a
/// tool choice is sent only along with tools.
pub open spec fn body_tree(
    request: CanonicalRequest,
    model: Seq<char>,
    effort: Option<Seq<char>>,
    inline_bytes: bool,
) -> Tree {
    let options = request.generation;
    let m0 = object2(
        "model"@,
        Tree::Text(model),
        "messages"@,
        Tree::Array(message_trees(all_messages(request, inline_bytes))),
    );
    let m1 = with_optional(m0, "max_tokens"@, number_tree(opt_nat32(options.max_tokens)));
    let m2 = with_optional(m1, "temperature"@, opt_tree(options.temperature));
    let m3 = with_optional(m2, "top_p"@, opt_tree(options.top_p));
    let m4 = with_optional(m3, "presence_penalty"@, opt_tree(options.presence_penalty));
    let m5 = with_optional(m4, "frequency_penalty"@, opt_tree(options.frequency_penalty));
    let m6 = with_optional(m5, "stop"@, stops_tree(options.stop_sequences@));
    let m7 = with_optional(m6, "seed"@, number_tree(opt_nat64(options.seed)));
    let m8 = with_optional(
        m7,
        "response_format"@,
        match request.response_format {
            Some(format) => Some(format_tree(format)),
            None => None,
        },
    );
    let m9 = with_optional(m8, "tools"@, tools_tree(request.tools@));
    let m10 = with_optional(
        m9,
        "tool_choice"@,
        if request.tools@.len() == 0 {
            None
        } else {
            Some(choice_tree(request.tool_choice))
        },
    );
    let m11 = with_member(m10, "stream"@, Tree::Bool(request.stream));
    let m12 = with_optional(
        m11,
        "stream_options"@,
        if request.stream {
            Some(Tree::Object(object1("include_usage"@, Tree::Bool(true))))
        } else {
            None
        },
    );
    Tree::Object(with_optional(m12, "reasoning_effort"@, text_tree(effort)))
}

/// The effort name that a chat upstream understands: the levels above `high`
/// become `xhigh` where it is accepted, and `high` where it is not.
pub open spec fn chat_effort(effort: ReasoningEffort, accepts_xhigh: bool) -> Seq<char> {
    match effort {
        ReasoningEffort::Xhigh | ReasoningEffort::Max => if accepts_xhigh {
            "xhigh"@
        } else {
            "high"@
        },
        _ => effort.name(),
    }
}

/// The effort member of the body.
pub open spec fn request_effort(
    request: CanonicalRequest,
    accepts_xhigh: bool,
) -> Option<Seq<char>> {
    match request.resolved_policy.reasoning_effort {
        Some(effort) => Some(chat_effort(effort, accepts_xhigh)),
        None => None,
    }
}

/// The body of a chat-completions request.
pub open spec fn chat_body(
    request: CanonicalRequest,
    target: BackendTarget,
    accepts_xhigh: bool,
) -> Tree {
    body_tree(request, target.model@, request_effort(request, accepts_xhigh), true)
}

// ---------------------------------------------------------------------------
// Encoder
// ---------------------------------------------------------------------------

/// Compresses an effort to what a chat upstream accepts.
pub fn effort_for_chat(effort: ReasoningEffort, accepts_xhigh: bool) -> (name: &'static str)
    ensures
        name@ == chat_effort(effort, accepts_xhigh),
{
    match effort {
        ReasoningEffort::Minimal => "minimal",
        ReasoningEffort::Low => "low",
        ReasoningEffort::Medium => "medium",
        ReasoningEffort::High => "high",
        ReasoningEffort::Xhigh => if accepts_xhigh {
            "xhigh"
        } else {
            "high"
        },
        ReasoningEffort::Max => if accepts_xhigh {
            "xhigh"
        } else {
            "high"
        },
    }
}

/// The body as a `serde_json` value.
pub fn build_json(
    req: &CanonicalRequest,
    target: &BackendTarget,
    accepts_xhigh: bool,
) -> (body: serde_json::Value)
    ensures
        value_tree(body) == chat_body(*req, *target, accepts_xhigh).normal(),
{
    build(req, target, accepts_xhigh).to_value()
}

/// Builds the body of a chat-completions request.
pub fn build(req: &CanonicalRequest, target: &BackendTarget, accepts_xhigh: bool) -> (body: Json)
    ensures
        body@ == chat_body(*req, *target, accepts_xhigh),
{
    let effort = match req.resolved_policy.reasoning_effort {
        Some(effort) => Some(effort_for_chat(effort, accepts_xhigh)),
        None => None,
    };
    build_body(req, target.model.as_str(), effort, true)
}

/// Builds a body for the given model and effort.
pub(crate) fn build_body(
    req: &CanonicalRequest,
    model: &str,
    effort: Option<&'static str>,
    inline_bytes: bool,
) -> (body: Json)
    ensures
        body@ == body_tree(
            *req,
            model@,
            match effort {
                Some(name) => Some(name@),
                None => None,
            },
            inline_bytes,
        ),
{
    let options = &req.generation;
    let mut m = no_members();
    put(&mut m, "model", Json::text(model));
    put(&mut m, "messages", Json::Array(build_messages(req, inline_bytes)));
    put_optional(&mut m, "max_tokens", number32(options.max_tokens));
    put_optional(&mut m, "temperature", copied(&options.temperature));
    put_optional(&mut m, "top_p", copied(&options.top_p));
    put_optional(&mut m, "presence_penalty", copied(&options.presence_penalty));
    put_optional(&mut m, "frequency_penalty", copied(&options.frequency_penalty));
    put_optional(&mut m, "stop", build_stops(&options.stop_sequences));
    let seed = match options.seed {
        Some(n) => Some(Json::unsigned(n)),
        None => None,
    };
    put_optional(&mut m, "seed", seed);
    let format = match &req.response_format {
        Some(format) => Some(build_format(format)),
        None => None,
    };
    put_optional(&mut m, "response_format", format);
    put_optional(&mut m, "tools", build_tools(&req.tools));
    let choice = if req.tools.len() == 0 {
        None
    } else {
        Some(build_choice(&req.tool_choice))
    };
    put_optional(&mut m, "tool_choice", choice);
    put(&mut m, "stream", Json::Bool(req.stream));
    let stream_options = if req.stream {
        Some(Json::object1("include_usage", Json::Bool(true)))
    } else {
        None
    };
    put_optional(&mut m, "stream_options", stream_options);
    let effort_value = match effort {
        Some(name) => Some(Json::text(name)),
        None => None,
    };
    put_optional(&mut m, "reasoning_effort", effort_value);
    Json::Object(m)
}

fn build_stops(stops: &Vec<String>) -> (value: Option<Json>)
    ensures
        opt_tree(value) == stops_tree(stops@),
{
    if stops.len() == 0 {
        return None;
    }
    let ghost all = Seq::new(stops@.len(), |i: int| Tree::Text(stops@[i]@));
    let mut values = no_values();
    let mut i: usize = 0;
    assert(all.take(0) =~= seq![]);
    while i < stops.len()
        invariant
            i <= stops@.len(),
            all == Seq::new(stops@.len(), |i: int| Tree::Text(stops@[i]@)),
            trees(values@) == all.take(i as int),
        decreases stops.len() - i,
    {
        append(&mut values, Json::text(stops[i].as_str()));
        i = i + 1;
        assert(all.take(i as int) =~= all.take(i - 1).push(all[i - 1]));
    }
    assert(all.take(i as int) =~= all);
    Some(Json::Array(values))
}

fn build_format(format: &ResponseFormat) -> (value: Json)
    ensures
        value@ == format_tree(*format),
{
    match format {
        ResponseFormat::Text => Json::object1("type", Json::text("text")),
        ResponseFormat::JsonObject => Json::object1("type", Json::text("json_object")),
        ResponseFormat::JsonSchema { name, schema, strict } => {
            let mut m = no_members();
            put(&mut m, "name", Json::text(name.as_str()));
            put(&mut m, "schema", schema.duplicate());
            put(&mut m, "strict", Json::Bool(*strict));
            Json::object2("type", Json::text("json_schema"), "json_schema", Json::Object(m))
        },
    }
}

fn build_choice(choice: &ToolChoice) -> (value: Json)
    ensures
        value@ == choice_tree(*choice),
{
    match choice {
        ToolChoice::Auto => Json::text("auto"),
        ToolChoice::Off => Json::text("none"),
        ToolChoice::Required => Json::text("required"),
        ToolChoice::Specific { name } => Json::object2(
            "type",
            Json::text("function"),
            "function",
            Json::object1("name", Json::text(name.as_str())),
        ),
    }
}

fn build_tool(tool: &ToolDefinition) -> (value: Json)
    ensures
        value@ == tool_tree(*tool),
{
    let mut m = no_members();
    put(&mut m, "name", Json::text(tool.name.as_str()));
    put_optional(&mut m, "description", optional_text(&tool.description));
    put(&mut m, "parameters", tool.input_schema.duplicate());
    Json::object2("type", Json::text("function"), "function", Json::Object(m))
}

fn build_tools(tools: &Vec<ToolDefinition>) -> (value: Option<Json>)
    ensures
        opt_tree(value) == tools_tree(tools@),
{
    if tools.len() == 0 {
        return None;
    }
    let ghost all = Seq::new(tools@.len(), |i: int| tool_tree(tools@[i]));
    let mut values = no_values();
    let mut i: usize = 0;
    assert(all.take(0) =~= seq![]);
    while i < tools.len()
        invariant
            i <= tools@.len(),
            all == Seq::new(tools@.len(), |i: int| tool_tree(tools@[i])),
            trees(values@) == all.take(i as int),
        decreases tools.len() - i,
    {
        append(&mut values, build_tool(&tools[i]));
        i = i + 1;
        assert(all.take(i as int) =~= all.take(i - 1).push(all[i - 1]));
    }
    assert(all.take(i as int) =~= all);
    Some(Json::Array(values))
}

/// Builds the JSON form of a message.
fn build_message(
    role: &str,
    content: Option<Json>,
    name: &Option<String>,
    tool_calls: Option<Vec<Json>>,
    tool_call_id: Option<&str>,
) -> (value: Json)
    ensures
        value@ == message_tree(
            ChatMessage {
                role: role@,
                content: opt_tree(content),
                name: opt_text(*name),
                tool_calls: match tool_calls {
                    Some(calls) => Some(trees(calls@)),
                    None => None,
                },
                tool_call_id: match tool_call_id {
                    Some(id) => Some(id@),
                    None => None,
                },
            },
        ),
{
    let mut m = no_members();
    put(&mut m, "role", Json::text(role));
    put_optional(&mut m, "content", content);
    put_optional(&mut m, "name", optional_text(name));
    let calls = match tool_calls {
        Some(calls) => Some(Json::Array(calls)),
        None => None,
    };
    put_optional(&mut m, "tool_calls", calls);
    let id = match tool_call_id {
        Some(id) => Some(Json::text(id)),
        None => None,
    };
    put_optional(&mut m, "tool_call_id", id);
    Json::Object(m)
}

/// The texts of the text blocks, one per line.
pub(crate) fn extract_text_content(blocks: &Vec<ContentBlock>) -> (text: String)
    ensures
        text@ == text_of(blocks@),
{
    let mut parts: Vec<String> = Vec::new();
    let mut i: usize = 0;
    assert(texts(parts@) =~= seq![]);
    while i < blocks.len()
        invariant
            i <= blocks@.len(),
            texts(parts@) == block_texts(blocks@.take(i as int)),
        decreases blocks.len() - i,
    {
        proof {
            assert(blocks@.take(i + 1).drop_last() =~= blocks@.take(i as int));
            assert(blocks@.take(i + 1).last() == blocks@[i as int]);
        }
        if let ContentBlock::Text(t) = &blocks[i] {
            let ghost before = parts@;
            parts.push(t.text.clone());
            assert(texts(parts@) =~= texts(before).push(t.text@));
        }
        i = i + 1;
    }
    assert(blocks@.take(i as int) =~= blocks@);
    join(&parts, "\n")
}

fn build_text_content_value(blocks: &Vec<ContentBlock>) -> (value: Option<Json>)
    ensures
        opt_tree(value) == text_content(blocks@),
{
    let text = extract_text_content(blocks);
    if text.as_str().is_empty() {
        None
    } else {
        Some(Json::Text(text))
    }
}

fn build_image_part(url: &str) -> (part: Json)
    ensures
        part@ == image_part(url@),
{
    Json::object2(
        "type",
        Json::text("image_url"),
        "image_url",
        Json::object1("url", Json::text(url)),
    )
}

fn build_part(block: &ContentBlock, inline_bytes: bool) -> (part: Option<Json>)
    ensures
        opt_tree(part) == part_of(*block, inline_bytes),
{
    match block {
        ContentBlock::Text(t) => Some(
            Json::object2("type", Json::text("text"), "text", Json::text(t.text.as_str())),
        ),
        ContentBlock::Image(image) => match &image.source {
            BinarySource::Base64 { media_type, data } => {
                let uri = to_data_uri(media_type.as_str(), data.as_slice());
                Some(build_image_part(uri.as_str()))
            },
            BinarySource::Bytes { media_type, data } => {
                if inline_bytes {
                    let uri = to_data_uri(media_type.as_str(), data.as_slice());
                    Some(build_image_part(uri.as_str()))
                } else {
                    None
                }
            },
            BinarySource::Url { url } => Some(build_image_part(url.as_str())),
            BinarySource::ProviderFileId { .. } => None,
        },
        _ => None,
    }
}

/// Builds the content of the blocks that are no tool results where
/// `skip_results` holds, and of all of them where it does not.
fn build_content_value(
    blocks: &Vec<ContentBlock>,
    skip_results: bool,
    inline_bytes: bool,
) -> (value: Option<Json>)
    ensures
        opt_tree(value) == content_of(
            if skip_results {
                without_results(blocks@)
            } else {
                blocks@
            },
            inline_bytes,
        ),
{
    let mut parts = no_values();
    let mut considered: usize = 0;
    let mut single: Option<String> = None;
    let mut i: usize = 0;
    let ghost mut kept: Seq<ContentBlock> = seq![];
    while i < blocks.len()
        invariant
            i <= blocks@.len(),
            kept == (if skip_results {
                without_results(blocks@.take(i as int))
            } else {
                blocks@.take(i as int)
            }),
            considered == kept.len(),
            considered <= i,
            trees(parts@) == parts_of(kept, inline_bytes),
            match single {
                Some(text) => kept.len() == 1 && kept[0] is Text && kept[0]->Text_0.text@ == text@,
                None => !(kept.len() == 1 && kept[0] is Text),
            },
        decreases blocks.len() - i,
    {
        let block = &blocks[i];
        proof {
            assert(blocks@.take(i + 1).drop_last() =~= blocks@.take(i as int));
            assert(blocks@.take(i + 1).last() == blocks@[i as int]);
            assert(blocks@.take(i + 1) =~= blocks@.take(i as int).push(blocks@[i as int]));
        }
        let skipped = skip_results && matches!(block, ContentBlock::ToolResult(_));
        if !skipped {
            let part = build_part(block, inline_bytes);
            proof {
                assert(kept.push(*block).drop_last() =~= kept);
                kept = kept.push(*block);
            }
            if let Some(p) = part {
                append(&mut parts, p);
            }
            single = match block {
                ContentBlock::Text(t) => if considered == 0 {
                    Some(t.text.clone())
                } else {
                    None
                },
                _ => None,
            };
            considered = considered + 1;
        }
        i = i + 1;
    }
    assert(blocks@.take(i as int) =~= blocks@);
    match single {
        Some(text) => Some(Json::Text(text)),
        None => {
            if parts.len() == 0 {
                None
            } else {
                Some(Json::Array(parts))
            }
        },
    }
}

/// The text of a tool call's arguments.
pub(crate) fn build_arguments(arguments: &ToolCallArguments) -> (text: String)
    ensures
        text@ == arguments_text(*arguments),
{
    match arguments {
        ToolCallArguments::Complete { value } => value.to_text(),
        ToolCallArguments::Streaming { data } => data.clone(),
    }
}

fn build_calls(blocks: &Vec<ContentBlock>) -> (calls: Vec<Json>)
    ensures
        trees(calls@) == calls_of(blocks@),
{
    let mut calls = no_values();
    let mut i: usize = 0;
    while i < blocks.len()
        invariant
            i <= blocks@.len(),
            trees(calls@) == calls_of(blocks@.take(i as int)),
        decreases blocks.len() - i,
    {
        proof {
            assert(blocks@.take(i + 1).drop_last() =~= blocks@.take(i as int));
            assert(blocks@.take(i + 1).last() == blocks@[i as int]);
        }
        if let ContentBlock::ToolCall(tc) = &blocks[i] {
            let arguments = build_arguments(&tc.arguments);
            let mut m = no_members();
            put(&mut m, "id", Json::text(tc.id.0.as_str()));
            put(&mut m, "type", Json::text("function"));
            put(
                &mut m,
                "function",
                Json::object2(
                    "name",
                    Json::text(tc.name.as_str()),
                    "arguments",
                    Json::Text(arguments),
                ),
            );
            append(&mut calls, Json::Object(m));
        }
        i = i + 1;
    }
    assert(blocks@.take(i as int) =~= blocks@);
    calls
}

/// The text of a tool result.
pub fn extract_text_from_tool_result(content: &Json) -> (text: String)
    ensures
        text@ == result_text(content@),
{
    match content {
        Json::Text(s) => s.clone(),
        Json::Array(items) => {
            let ghost all = trees(items@);
            let ghost wanted = Seq::new(all.len(), |i: int| result_item_text(all[i]));
            let mut parts: Vec<String> = Vec::new();
            let mut i: usize = 0;
            assert(texts(parts@) =~= wanted.take(0));
            while i < items.len()
                invariant
                    i <= items@.len(),
                    all == trees(items@),
                    wanted == Seq::new(all.len(), |i: int| result_item_text(all[i])),
                    texts(parts@) == wanted.take(i as int),
                decreases items.len() - i,
            {
                let item = &items[i];
                assert(all[i as int] == item@);
                let part = match item.str_member("text") {
                    Some(text) => text.to_owned(),
                    None => match item.as_str() {
                        Some(text) => text.to_owned(),
                        None => item.to_text(),
                    },
                };
                let ghost before = parts@;
                parts.push(part);
                i = i + 1;
                assert(texts(parts@) =~= texts(before).push(part@));
                assert(wanted.take(i as int) =~= wanted.take(i - 1).push(wanted[i - 1]));
            }
            assert(wanted.take(i as int) =~= wanted);
            join(&parts, "\n")
        },
        Json::Null => String::new(),
        _ => content.to_text(),
    }
}

fn role_name(message: &Message) -> (role: &'static str)
    ensures
        role@ == role_of(*message),
{
    match message.role {
        MessageRole::User => "user",
        MessageRole::Assistant => "assistant",
        MessageRole::Tool => "tool",
        MessageRole::System => match message.source {
            Some(SystemSource::OpenAiDeveloper) => "developer",
            _ => "system",
        },
    }
}

/// Appends a tool message for each tool result.
fn push_results(out: &mut Vec<Json>, blocks: &Vec<ContentBlock>, name: &Option<String>)
    ensures
        trees(final(out)@) == trees(old(out)@) + message_trees(results_of(blocks@, opt_text(*name))),
{
    let ghost start = trees(out@);
    let ghost wanted = opt_text(*name);
    let mut i: usize = 0;
    assert(start + message_trees(results_of(blocks@.take(0), wanted)) =~= start);
    while i < blocks.len()
        invariant
            i <= blocks@.len(),
            wanted == opt_text(*name),
            trees(out@) == start + message_trees(results_of(blocks@.take(i as int), wanted)),
        decreases blocks.len() - i,
    {
        let ghost before = results_of(blocks@.take(i as int), wanted);
        proof {
            assert(blocks@.take(i + 1).drop_last() =~= blocks@.take(i as int));
            assert(blocks@.take(i + 1).last() == blocks@[i as int]);
        }
        if let ContentBlock::ToolResult(tr) = &blocks[i] {
            let text = extract_text_from_tool_result(&tr.content);
            let value = build_message(
                "tool",
                Some(Json::Text(text)),
                name,
                None,
                Some(tr.tool_call_id.0.as_str()),
            );
            append(out, value);
            proof {
                let added = results_of(blocks@.take(i + 1), wanted);
                assert(added =~= before.push(added.last()));
                assert(message_trees(added) =~= message_trees(before).push(value@));
                assert(trees(out@) =~= start + message_trees(added));
            }
        }
        i = i + 1;
    }
    assert(blocks@.take(i as int) =~= blocks@);
}

fn has_result(blocks: &Vec<ContentBlock>, name: Ghost<Option<Seq<char>>>) -> (found: bool)
    ensures
        found == (results_of(blocks@, name@).len() > 0),
{
    let mut found = false;
    let mut i: usize = 0;
    while i < blocks.len()
        invariant
            i <= blocks@.len(),
            found == (results_of(blocks@.take(i as int), name@).len() > 0),
        decreases blocks.len() - i,
    {
        proof {
            assert(blocks@.take(i + 1).drop_last() =~= blocks@.take(i as int));
            assert(blocks@.take(i + 1).last() == blocks@[i as int]);
        }
        if let ContentBlock::ToolResult(_) = &blocks[i] {
            found = true;
        }
        i = i + 1;
    }
    assert(blocks@.take(i as int) =~= blocks@);
    found
}

/// Appends the messages that one canonical message becomes.
fn push_message(out: &mut Vec<Json>, message: &Message, inline_bytes: bool)
    ensures
        trees(final(out)@) == trees(old(out)@) + message_trees(
            encoded_message(*message, inline_bytes),
        ),
{
    let ghost start = trees(out@);
    let role = role_name(message);
    let calls = build_calls(&message.content);
    if has_result(&message.content, Ghost(opt_text(message.name))) {
        push_results(out, &message.content, &message.name);
        let ghost results = results_of(message.content@, opt_text(message.name));
        if message.role != MessageRole::Tool {
            if let Some(content) = build_content_value(&message.content, true, inline_bytes) {
                let value = build_message(role, Some(content), &message.name, None, None);
                append(out, value);
                proof {
                    let all = encoded_message(*message, inline_bytes);
                    assert(message_trees(all) =~= message_trees(results).push(value@));
                    assert(trees(out@) =~= start + message_trees(all));
                }
            }
        }
    } else if calls.len() > 0 {
        let content = build_text_content_value(&message.content);
        let value = build_message(role, content, &message.name, Some(calls), None);
        append(out, value);
        proof {
            let all = encoded_message(*message, inline_bytes);
            assert(message_trees(all) =~= seq![value@]);
            assert(trees(out@) =~= start + message_trees(all));
        }
    } else {
        let content = build_content_value(&message.content, false, inline_bytes);
        let value = build_message(role, content, &message.name, None, None);
        append(out, value);
        proof {
            let all = encoded_message(*message, inline_bytes);
            assert(message_trees(all) =~= seq![value@]);
            assert(trees(out@) =~= start + message_trees(all));
        }
    }
}

fn build_messages(req: &CanonicalRequest, inline_bytes: bool) -> (out: Vec<Json>)
    ensures
        trees(out@) == message_trees(all_messages(*req, inline_bytes)),
{
    let mut out = no_values();
    let ghost systems = Seq::new(req.system@.len(), |i: int| encoded_system(req.system@[i]));
    let mut i: usize = 0;
    assert(message_trees(systems.take(0)) =~= seq![]);
    while i < req.system.len()
        invariant
            i <= req.system@.len(),
            systems == Seq::new(req.system@.len(), |i: int| encoded_system(req.system@[i])),
            trees(out@) == message_trees(systems.take(i as int)),
        decreases req.system.len() - i,
    {
        let system = &req.system[i];
        let role = match system.source {
            SystemSource::OpenAiDeveloper => "developer",
            _ => "system",
        };
        let text = extract_text_content(&system.content);
        let value = build_message(role, Some(Json::Text(text)), &None, None, None);
        append(&mut out, value);
        i = i + 1;
        proof {
            assert(message_trees(systems.take(i as int)) =~= message_trees(
                systems.take(i - 1),
            ).push(message_tree(systems[i - 1])));
        }
    }
    assert(systems.take(i as int) =~= systems);
    let mut k: usize = 0;
    assert(trees(out@) =~= message_trees(systems) + message_trees(
        encoded_messages(req.messages@.take(0), inline_bytes),
    ));
    while k < req.messages.len()
        invariant
            k <= req.messages@.len(),
            trees(out@) == message_trees(systems) + message_trees(
                encoded_messages(req.messages@.take(k as int), inline_bytes),
            ),
        decreases req.messages.len() - k,
    {
        let ghost before = encoded_messages(req.messages@.take(k as int), inline_bytes);
        push_message(&mut out, &req.messages[k], inline_bytes);
        proof {
            let message = req.messages@[k as int];
            assert(req.messages@.take(k + 1).drop_last() =~= req.messages@.take(k as int));
            let added = encoded_message(message, inline_bytes);
            assert(message_trees(before + added) =~= message_trees(before) + message_trees(added));
            assert(trees(out@) =~= message_trees(systems) + message_trees(before + added));
        }
        k = k + 1;
    }
    proof {
        assert(req.messages@.take(k as int) =~= req.messages@);
        let rest = encoded_messages(req.messages@, inline_bytes);
        assert(message_trees(systems + rest) =~= message_trees(systems) + message_trees(rest));
    }
    out
}

// ---------------------------------------------------------------------------
// Laws
// ---------------------------------------------------------------------------

/// Whether a message answers a tool call.
pub open spec fn is_tool_reply(m: ChatMessage) -> bool {
    m.role == "tool"@ && m.tool_call_id is Some && m.tool_calls is None
}

proof fn lemma_results_are_replies(blocks: Seq<ContentBlock>, name: Option<Seq<char>>)
    ensures
        forall|i: int|
            0 <= i < results_of(blocks, name).len() ==> is_tool_reply(
                #[trigger] results_of(blocks, name)[i],
            ),
    decreases blocks.len(),
{
    if blocks.len() > 0 {
        let before = results_of(blocks.drop_last(), name);
        lemma_results_are_replies(blocks.drop_last(), name);
        assert forall|i: int| 0 <= i < results_of(blocks, name).len() implies is_tool_reply(
            #[trigger] results_of(blocks, name)[i],
        ) by {
            if i < before.len() {
                assert(is_tool_reply(before[i]));
            }
        }
    }
}

/// A message with tool results is encoded as one tool reply per result, in
/// order, and at most one further message, which comes after all of them and
/// answers no call.
pub proof fn tool_results_come_first(message: Message, inline_bytes: bool)
    requires
        results_of(message.content@, opt_text(message.name)).len() > 0,
    ensures
        ({
            let out = encoded_message(message, inline_bytes);
            let results = results_of(message.content@, opt_text(message.name));
            &&& results.len() <= out.len() <= results.len() + 1
            &&& out.take(results.len() as int) == results
            &&& forall|i: int| 0 <= i < results.len() ==> is_tool_reply(#[trigger] out[i])
            &&& out.len() > results.len() ==> out.last().tool_call_id is None
                && out.last().tool_calls is None
        }),
{
    let out = encoded_message(message, inline_bytes);
    let results = results_of(message.content@, opt_text(message.name));
    lemma_results_are_replies(message.content@, opt_text(message.name));
    assert(out.take(results.len() as int) =~= results);
    assert forall|i: int| 0 <= i < results.len() implies is_tool_reply(#[trigger] out[i]) by {
        assert(is_tool_reply(results[i]));
    }
}

/// The replies to an assistant's tool calls directly follow the message that
/// makes the calls: nothing stands between them.
pub proof fn tool_results_follow_their_calls(
    before: Seq<Message>,
    assistant: Message,
    reply: Message,
    inline_bytes: bool,
)
    requires
        calls_of(assistant.content@).len() > 0,
        results_of(assistant.content@, opt_text(assistant.name)).len() == 0,
        results_of(reply.content@, opt_text(reply.name)).len() > 0,
    ensures
        ({
            let out = encoded_messages(before.push(assistant).push(reply), inline_bytes);
            let n = encoded_messages(before, inline_bytes).len() as int;
            let results = results_of(reply.content@, opt_text(reply.name));
            &&& out.take(n) == encoded_messages(before, inline_bytes)
            &&& out[n].tool_calls == Some(calls_of(assistant.content@))
            &&& out.subrange(n + 1, n + 1 + results.len()) == results
        }),
{
    let two = before.push(assistant);
    let three = two.push(reply);
    assert(three.drop_last() =~= two);
    assert(two.drop_last() =~= before);
    let a = encoded_messages(before, inline_bytes);
    let b = encoded_message(assistant, inline_bytes);
    let c = encoded_message(reply, inline_bytes);
    let results = results_of(reply.content@, opt_text(reply.name));
    tool_results_come_first(reply, inline_bytes);
    let out = encoded_messages(three, inline_bytes);
    assert(encoded_messages(two, inline_bytes) == a + b);
    let n = a.len() as int;
    assert(out.take(n) =~= a);
    assert(out[n] == b[0]);
    assert(out.subrange(n + 1, n + 1 + results.len()) =~= c.take(results.len() as int));
}

/// No name occurs twice in a request body.
pub proof fn body_names_are_distinct(
    request: CanonicalRequest,
    model: Seq<char>,
    effort: Option<Seq<char>>,
    inline_bytes: bool,
)
    ensures
        match body_tree(request, model, effort, inline_bytes) {
            Tree::Object(m) => distinct_names(m),
            _ => false,
        },
{
    broadcast use optional_keeps_names_distinct;
    let none: Seq<(Seq<char>, Tree)> = seq![];
    assert(distinct_names(none));
    let messages = Tree::Array(message_trees(all_messages(request, inline_bytes)));
    setting_keeps_names_distinct(none, "model"@, Tree::Text(model));
    setting_keeps_names_distinct(object1("model"@, Tree::Text(model)), "messages"@, messages);
    let options = request.generation;
    let m0 = object2("model"@, Tree::Text(model), "messages"@, messages);
    let m1 = with_optional(m0, "max_tokens"@, number_tree(opt_nat32(options.max_tokens)));
    let m2 = with_optional(m1, "temperature"@, opt_tree(options.temperature));
    let m3 = with_optional(m2, "top_p"@, opt_tree(options.top_p));
    let m4 = with_optional(m3, "presence_penalty"@, opt_tree(options.presence_penalty));
    let m5 = with_optional(m4, "frequency_penalty"@, opt_tree(options.frequency_penalty));
    let m6 = with_optional(m5, "stop"@, stops_tree(options.stop_sequences@));
    let m7 = with_optional(m6, "seed"@, number_tree(opt_nat64(options.seed)));
    let m8 = with_optional(
        m7,
        "response_format"@,
        match request.response_format {
            Some(format) => Some(format_tree(format)),
            None => None,
        },
    );
    let m9 = with_optional(m8, "tools"@, tools_tree(request.tools@));
    let m10 = with_optional(
        m9,
        "tool_choice"@,
        if request.tools@.len() == 0 {
            None
        } else {
            Some(choice_tree(request.tool_choice))
        },
    );
    setting_keeps_names_distinct(m10, "stream"@, Tree::Bool(request.stream));
}

broadcast proof fn optional_keeps_names_distinct(
    m: Seq<(Seq<char>, Tree)>,
    key: Seq<char>,
    value: Option<Tree>,
)
    requires
        distinct_names(m),
    ensures
        distinct_names(#[trigger] with_optional(m, key, value)),
{
    if let Some(v) = value {
        setting_keeps_names_distinct(m, key, v);
    }
}

} // verus!
