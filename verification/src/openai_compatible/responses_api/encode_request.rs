//! Builds the Responses API request body of a canonical request.
use vstd::prelude::*;

use crate::canonical::{
    BackendTarget, BinarySource, CanonicalRequest, ContentBlock, Message, MessageRole,
    ReasoningEffort, ResolvedPolicy, SystemInstruction, ToolChoice, ToolDefinition,
};
use crate::json::{
    append, copied, member, no_members, no_values, number32, number_tree, object1, object2, opt_nat32,
    opt_text, opt_tree, optional_text, put, put_optional, text_tree, trees, with_member,
    with_optional, Json, Tree,
};
use crate::media::{data_uri, to_data_uri};
use crate::oai_chat_wire::canonical_to_chat::{
    arguments_text, build_arguments, extract_text_content, text_of,
};
use crate::text::{join, joined, texts};

verus! {

// ---------------------------------------------------------------------------
// Model
// ---------------------------------------------------------------------------

/// The members of an object built from three members.
pub open spec fn object3(
    key1: Seq<char>,
    value1: Tree,
    key2: Seq<char>,
    value2: Tree,
    key3: Seq<char>,
    value3: Tree,
) -> Tree {
    Tree::Object(with_member(object2(key1, value1, key2, value2), key3, value3))
}

/// The output text of a tool result: a string as it is, the JSON text of
/// anything else.
pub open spec fn output_text(content: Tree) -> Seq<char> {
    match content {
        Tree::Text(s) => s,
        _ => content.compact(),
    }
}

/// The output items of the blocks' tool results, in order.
pub open spec fn outputs_of(blocks: Seq<ContentBlock>) -> Seq<Tree>
    decreases blocks.len(),
{
    if blocks.len() == 0 {
        seq![]
    } else {
        let before = outputs_of(blocks.drop_last());
        match blocks.last() {
            ContentBlock::ToolResult(tr) => before.push(
                object3(
                    "type"@,
                    Tree::Text("function_call_output"@),
                    "call_id"@,
                    Tree::Text(tr.tool_call_id.0@),
                    "output"@,
                    Tree::Text(output_text(tr.content@)),
                ),
            ),
            _ => before,
        }
    }
}

/// The call items of the blocks' tool calls, in order.
pub open spec fn call_items(blocks: Seq<ContentBlock>) -> Seq<Tree>
    decreases blocks.len(),
{
    if blocks.len() == 0 {
        seq![]
    } else {
        let before = call_items(blocks.drop_last());
        match blocks.last() {
            ContentBlock::ToolCall(tc) => before.push(
                Tree::Object(
                    with_member(
                        with_member(
                            object2(
                                "type"@,
                                Tree::Text("function_call"@),
                                "call_id"@,
                                Tree::Text(tc.id.0@),
                            ),
                            "name"@,
                            Tree::Text(tc.name@),
                        ),
                        "arguments"@,
                        Tree::Text(arguments_text(tc.arguments)),
                    ),
                ),
            ),
            _ => before,
        }
    }
}

/// A message item.
pub open spec fn message_item(role: Seq<char>, content: Tree) -> Tree {
    object3("type"@, Tree::Text("message"@), "role"@, Tree::Text(role), "content"@, content)
}

/// An image part that points at `url`.
pub open spec fn image_part(url: Seq<char>) -> Tree {
    Tree::Object(
        object2("type"@, Tree::Text("input_image"@), "image_url"@, Tree::Text(url)),
    )
}

/// The content part of a block, if it has one.
pub open spec fn part_of(block: ContentBlock) -> Option<Tree> {
    match block {
        ContentBlock::Text(t) => Some(
            Tree::Object(
                object2("type"@, Tree::Text("input_text"@), "text"@, Tree::Text(t.text@)),
            ),
        ),
        ContentBlock::Image(image) => match image.source {
            BinarySource::Url { url } => Some(image_part(url@)),
            BinarySource::Base64 { media_type, data } => Some(
                image_part(data_uri(media_type@, data@)),
            ),
            BinarySource::Bytes { media_type, data } => Some(
                image_part(data_uri(media_type@, data@)),
            ),
            BinarySource::ProviderFileId { .. } => None,
        },
        _ => None,
    }
}

/// The content parts of the blocks, in order.
pub open spec fn parts_of(blocks: Seq<ContentBlock>) -> Seq<Tree>
    decreases blocks.len(),
{
    if blocks.len() == 0 {
        seq![]
    } else {
        let before = parts_of(blocks.drop_last());
        match part_of(blocks.last()) {
            Some(part) => before.push(part),
            None => before,
        }
    }
}

/// Whether there is an image among the blocks.
pub open spec fn has_image(blocks: Seq<ContentBlock>) -> bool {
    exists|i: int| 0 <= i < blocks.len() && #[trigger] blocks[i] is Image
}

/// The content of a message: its text, or a list of parts where it holds an
/// image.
pub open spec fn content_of(blocks: Seq<ContentBlock>) -> Tree {
    if has_image(blocks) {
        Tree::Array(parts_of(blocks))
    } else {
        Tree::Text(text_of(blocks))
    }
}

/// The items of a user or assistant message. Tool calls are items of their
/// own, after the text.
pub open spec fn spoken_items(role: Seq<char>, blocks: Seq<ContentBlock>) -> Seq<Tree> {
    if call_items(blocks).len() > 0 {
        if text_of(blocks).len() == 0 {
            call_items(blocks)
        } else {
            seq![message_item(role, Tree::Text(text_of(blocks)))] + call_items(blocks)
        }
    } else {
        seq![message_item(role, content_of(blocks))]
    }
}

/// The input items that a message becomes. A system message has none.
pub open spec fn items_of(message: Message) -> Seq<Tree> {
    match message.role {
        MessageRole::User => spoken_items("user"@, message.content@),
        MessageRole::Assistant => spoken_items("assistant"@, message.content@),
        MessageRole::Tool => outputs_of(message.content@),
        MessageRole::System => seq![],
    }
}

/// The input items of the conversation.
pub open spec fn input_of(messages: Seq<Message>) -> Seq<Tree>
    decreases messages.len(),
{
    if messages.len() == 0 {
        seq![]
    } else {
        input_of(messages.drop_last()) + items_of(messages.last())
    }
}

/// The texts of the system messages inside the conversation that have one.
pub open spec fn inner_systems(messages: Seq<Message>) -> Seq<Seq<char>>
    decreases messages.len(),
{
    if messages.len() == 0 {
        seq![]
    } else {
        let before = inner_systems(messages.drop_last());
        let last = messages.last();
        if last.role == MessageRole::System && text_of(last.content@).len() > 0 {
            before.push(text_of(last.content@))
        } else {
            before
        }
    }
}

/// The texts of the system instructions.
pub open spec fn system_texts(systems: Seq<SystemInstruction>) -> Seq<Seq<char>> {
    Seq::new(systems.len(), |i: int| text_of(systems[i].content@))
}

/// The instructions: those in front, then those inside the conversation.
pub open spec fn instructions_of(request: CanonicalRequest) -> Option<Seq<char>> {
    let all = system_texts(request.system@) + inner_systems(request.messages@);
    if all.len() == 0 {
        None
    } else {
        Some(joined(all, "\n"@))
    }
}

/// The JSON form of a tool.
pub open spec fn tool_tree(tool: ToolDefinition) -> Tree {
    let base = with_member(
        object2("type"@, Tree::Text("function"@), "name"@, Tree::Text(tool.name@)),
        "parameters"@,
        tool.input_schema@,
    );
    Tree::Object(with_optional(base, "description"@, text_tree(opt_text(tool.description))))
}

/// The built-in tools that the frontend passed along.
pub open spec fn builtin_tools(request: CanonicalRequest) -> Seq<Tree> {
    match member(request.extensions@, "builtin_tools"@) {
        Some(Tree::Array(items)) => items,
        _ => seq![],
    }
}

/// All tools: the request's own, then the built-in ones.
pub open spec fn tools_of(request: CanonicalRequest) -> Seq<Tree> {
    Seq::new(request.tools@.len(), |i: int| tool_tree(request.tools@[i])) + builtin_tools(request)
}

/// The JSON form of a tool choice.
pub open spec fn choice_tree(choice: ToolChoice) -> Tree {
    match choice {
        ToolChoice::Auto => Tree::Text("auto"@),
        ToolChoice::Off => Tree::Text("none"@),
        ToolChoice::Required => Tree::Text("required"@),
        ToolChoice::Specific { name } => Tree::Object(
            object2("type"@, Tree::Text("function"@), "name"@, Tree::Text(name@)),
        ),
    }
}

/// The effort name: the strongest one that the model advertises up to the one
/// asked for; without such a list, or where none is low enough, `high` stands
/// for everything above it.
pub open spec fn effort_name(effort: ReasoningEffort, policy: ResolvedPolicy) -> Seq<char> {
    let clamped = match policy.supported_efforts {
        Some(advertised) => effort.clamped(texts(advertised@)),
        None => None,
    };
    match clamped {
        Some(name) => name,
        None => match effort {
            ReasoningEffort::Xhigh | ReasoningEffort::Max => "high"@,
            _ => effort.name(),
        },
    }
}

/// The request body.
pub open spec fn responses_body(request: CanonicalRequest, target: BackendTarget) -> Tree {
    let m0 = object2(
        "model"@,
        Tree::Text(target.model@),
        "stream"@,
        Tree::Bool(request.stream),
    );
    let m1 = with_member(m0, "input"@, Tree::Array(input_of(request.messages@)));
    let m2 = with_optional(m1, "instructions"@, text_tree(instructions_of(request)));
    let m3 = with_optional(
        m2,
        "tools"@,
        if tools_of(request).len() == 0 {
            None
        } else {
            Some(Tree::Array(tools_of(request)))
        },
    );
    let m4 = with_optional(
        m3,
        "tool_choice"@,
        if request.tools@.len() > 0 || member(request.extensions@, "builtin_tools"@) is Some {
            Some(choice_tree(request.tool_choice))
        } else {
            None
        },
    );
    let m5 = with_optional(
        m4,
        "max_output_tokens"@,
        number_tree(opt_nat32(request.generation.max_tokens)),
    );
    let m6 = with_optional(m5, "temperature"@, opt_tree(request.generation.temperature));
    let m7 = with_optional(m6, "top_p"@, opt_tree(request.generation.top_p));
    Tree::Object(
        with_optional(
            m7,
            "reasoning"@,
            match request.resolved_policy.reasoning_effort {
                Some(effort) => Some(
                    Tree::Object(
                        object1(
                            "effort"@,
                            Tree::Text(effort_name(effort, request.resolved_policy)),
                        ),
                    ),
                ),
                None => None,
            },
        ),
    )
}

// ---------------------------------------------------------------------------
// Encoder
// ---------------------------------------------------------------------------

/// Builds the body of a Responses API request.
pub fn build(req: &CanonicalRequest, target: &BackendTarget) -> (body: Json)
    ensures
        body@ == responses_body(*req, *target),
{
    let mut m = no_members();
    put(&mut m, "model", Json::text(target.model.as_str()));
    put(&mut m, "stream", Json::Bool(req.stream));
    put(&mut m, "input", Json::Array(build_input(&req.messages)));
    let instructions = build_instructions(req);
    put_optional(&mut m, "instructions", optional_text(&instructions));
    let tools = build_tools(req);
    let tools_value = if tools.len() == 0 {
        None
    } else {
        Some(Json::Array(tools))
    };
    put_optional(&mut m, "tools", tools_value);
    let choice = if req.tools.len() > 0 || req.extensions.get("builtin_tools").is_some() {
        Some(build_choice(&req.tool_choice))
    } else {
        None
    };
    put_optional(&mut m, "tool_choice", choice);
    put_optional(&mut m, "max_output_tokens", number32(req.generation.max_tokens));
    put_optional(&mut m, "temperature", copied(&req.generation.temperature));
    put_optional(&mut m, "top_p", copied(&req.generation.top_p));
    let reasoning = match req.resolved_policy.reasoning_effort {
        Some(effort) => {
            let name = responses_effort(effort, &req.resolved_policy);
            Some(Json::object1("effort", Json::text(name)))
        },
        None => None,
    };
    put_optional(&mut m, "reasoning", reasoning);
    Json::Object(m)
}

fn responses_effort(effort: ReasoningEffort, policy: &ResolvedPolicy) -> (name: &'static str)
    ensures
        name@ == effort_name(effort, *policy),
{
    let clamped = match &policy.supported_efforts {
        Some(advertised) => effort.clamp_to_advertised(advertised),
        None => None,
    };
    match clamped {
        Some(name) => name,
        None => match effort {
            ReasoningEffort::Xhigh => "high",
            ReasoningEffort::Max => "high",
            _ => effort.as_str(),
        },
    }
}

fn build_choice(choice: &ToolChoice) -> (value: Json)
    ensures
        value@ == choice_tree(*choice),
{
    match choice {
        ToolChoice::Auto => Json::text("auto"),
        ToolChoice::Off => Json::text("none"),
        ToolChoice::Required => Json::text("required"),
        ToolChoice::Specific { name } => Json::object2(
            "type",
            Json::text("function"),
            "name",
            Json::text(name.as_str()),
        ),
    }
}

fn build_tools(req: &CanonicalRequest) -> (tools: Vec<Json>)
    ensures
        trees(tools@) == tools_of(*req),
{
    let ghost own = Seq::new(req.tools@.len(), |i: int| tool_tree(req.tools@[i]));
    let mut tools = no_values();
    let mut i: usize = 0;
    assert(own.take(0) =~= seq![]);
    while i < req.tools.len()
        invariant
            i <= req.tools@.len(),
            own == Seq::new(req.tools@.len(), |i: int| tool_tree(req.tools@[i])),
            trees(tools@) == own.take(i as int),
        decreases req.tools.len() - i,
    {
        let tool = &req.tools[i];
        let mut m = no_members();
        put(&mut m, "type", Json::text("function"));
        put(&mut m, "name", Json::text(tool.name.as_str()));
        put(&mut m, "parameters", tool.input_schema.duplicate());
        put_optional(&mut m, "description", optional_text(&tool.description));
        append(&mut tools, Json::Object(m));
        i = i + 1;
        assert(own.take(i as int) =~= own.take(i - 1).push(own[i - 1]));
    }
    assert(own.take(i as int) =~= own);
    assert(own + Seq::<Tree>::empty() =~= own);
    if let Some(Json::Array(builtin)) = req.extensions.get("builtin_tools") {
        let ghost more = trees(builtin@);
        let mut k: usize = 0;
        assert(own + more.take(0) =~= own);
        while k < builtin.len()
            invariant
                k <= builtin@.len(),
                more == trees(builtin@),
                trees(tools@) == own + more.take(k as int),
            decreases builtin.len() - k,
        {
            append(&mut tools, builtin[k].duplicate());
            k = k + 1;
            assert(own + more.take(k as int) =~= (own + more.take(k - 1)).push(more[k - 1]));
        }
        assert(more.take(k as int) =~= more);
    }
    tools
}

fn build_instructions(req: &CanonicalRequest) -> (instructions: Option<String>)
    ensures
        opt_text(instructions) == instructions_of(*req),
{
    let ghost systems = system_texts(req.system@);
    let mut parts: Vec<String> = Vec::new();
    let mut i: usize = 0;
    assert(texts(parts@) =~= systems.take(0));
    while i < req.system.len()
        invariant
            i <= req.system@.len(),
            systems == system_texts(req.system@),
            texts(parts@) == systems.take(i as int),
        decreases req.system.len() - i,
    {
        let ghost before = parts@;
        let text = extract_text_content(&req.system[i].content);
        parts.push(text);
        i = i + 1;
        assert(texts(parts@) =~= texts(before).push(text@));
        assert(systems.take(i as int) =~= systems.take(i - 1).push(systems[i - 1]));
    }
    assert(systems.take(i as int) =~= systems);
    let mut k: usize = 0;
    assert(systems + inner_systems(req.messages@.take(0)) =~= systems);
    while k < req.messages.len()
        invariant
            k <= req.messages@.len(),
            texts(parts@) == systems + inner_systems(req.messages@.take(k as int)),
        decreases req.messages.len() - k,
    {
        let message = &req.messages[k];
        proof {
            assert(req.messages@.take(k + 1).drop_last() =~= req.messages@.take(k as int));
            assert(req.messages@.take(k + 1).last() == *message);
        }
        if message.role == MessageRole::System {
            let text = extract_text_content(&message.content);
            if !text.as_str().is_empty() {
                let ghost before = parts@;
                parts.push(text);
                assert(texts(parts@) =~= texts(before).push(text@));
                assert(texts(parts@) =~= systems + inner_systems(req.messages@.take(k + 1)));
            }
        }
        k = k + 1;
    }
    assert(req.messages@.take(k as int) =~= req.messages@);
    assert(texts(parts@).len() == parts@.len());
    if parts.len() == 0 {
        None
    } else {
        Some(join(&parts, "\n"))
    }
}

fn build_item(role: &str, content: Json) -> (item: Json)
    ensures
        item@ == message_item(role@, content@),
{
    let mut m = no_members();
    put(&mut m, "type", Json::text("message"));
    put(&mut m, "role", Json::text(role));
    put(&mut m, "content", content);
    Json::Object(m)
}

fn build_part(block: &ContentBlock) -> (part: Option<Json>)
    ensures
        opt_tree(part) == part_of(*block),
{
    match block {
        ContentBlock::Text(t) => Some(
            Json::object2("type", Json::text("input_text"), "text", Json::text(t.text.as_str())),
        ),
        ContentBlock::Image(image) => match &image.source {
            BinarySource::Url { url } => Some(build_image_part(url.as_str())),
            BinarySource::Base64 { media_type, data } => {
                let uri = to_data_uri(media_type.as_str(), data.as_slice());
                Some(build_image_part(uri.as_str()))
            },
            BinarySource::Bytes { media_type, data } => {
                let uri = to_data_uri(media_type.as_str(), data.as_slice());
                Some(build_image_part(uri.as_str()))
            },
            BinarySource::ProviderFileId { .. } => None,
        },
        _ => None,
    }
}

fn build_image_part(url: &str) -> (part: Json)
    ensures
        part@ == image_part(url@),
{
    Json::object2("type", Json::text("input_image"), "image_url", Json::text(url))
}

/// Builds the content of a message.
fn build_message_content(blocks: &Vec<ContentBlock>) -> (content: Json)
    ensures
        content@ == content_of(blocks@),
{
    let mut image = false;
    let mut parts = no_values();
    let mut i: usize = 0;
    while i < blocks.len()
        invariant
            i <= blocks@.len(),
            trees(parts@) == parts_of(blocks@.take(i as int)),
            image ==> has_image(blocks@),
            !image ==> forall|k: int| 0 <= k < i ==> !(#[trigger] blocks@[k] is Image),
        decreases blocks.len() - i,
    {
        let block = &blocks[i];
        proof {
            assert(blocks@.take(i + 1).drop_last() =~= blocks@.take(i as int));
            assert(blocks@.take(i + 1).last() == blocks@[i as int]);
        }
        if let ContentBlock::Image(_) = block {
            assert(blocks@[i as int] is Image);
            image = true;
        }
        if let Some(part) = build_part(block) {
            append(&mut parts, part);
        }
        i = i + 1;
    }
    assert(blocks@.take(i as int) =~= blocks@);
    if image {
        Json::Array(parts)
    } else {
        Json::Text(extract_text_content(blocks))
    }
}

fn push_outputs(out: &mut Vec<Json>, blocks: &Vec<ContentBlock>)
    ensures
        trees(final(out)@) == trees(old(out)@) + outputs_of(blocks@),
{
    let ghost start = trees(out@);
    let mut i: usize = 0;
    assert(start + outputs_of(blocks@.take(0)) =~= start);
    while i < blocks.len()
        invariant
            i <= blocks@.len(),
            trees(out@) == start + outputs_of(blocks@.take(i as int)),
        decreases blocks.len() - i,
    {
        proof {
            assert(blocks@.take(i + 1).drop_last() =~= blocks@.take(i as int));
            assert(blocks@.take(i + 1).last() == blocks@[i as int]);
        }
        if let ContentBlock::ToolResult(tr) = &blocks[i] {
            let text = match &tr.content {
                Json::Text(s) => s.clone(),
                other => other.to_text(),
            };
            let mut m = no_members();
            put(&mut m, "type", Json::text("function_call_output"));
            put(&mut m, "call_id", Json::text(tr.tool_call_id.0.as_str()));
            put(&mut m, "output", Json::Text(text));
            append(out, Json::Object(m));
            assert(trees(out@) =~= start + outputs_of(blocks@.take(i + 1)));
        }
        i = i + 1;
    }
    assert(blocks@.take(i as int) =~= blocks@);
}

fn build_calls(blocks: &Vec<ContentBlock>) -> (calls: Vec<Json>)
    ensures
        trees(calls@) == call_items(blocks@),
{
    let mut calls = no_values();
    let mut i: usize = 0;
    while i < blocks.len()
        invariant
            i <= blocks@.len(),
            trees(calls@) == call_items(blocks@.take(i as int)),
        decreases blocks.len() - i,
    {
        proof {
            assert(blocks@.take(i + 1).drop_last() =~= blocks@.take(i as int));
            assert(blocks@.take(i + 1).last() == blocks@[i as int]);
        }
        if let ContentBlock::ToolCall(tc) = &blocks[i] {
            let mut m = no_members();
            put(&mut m, "type", Json::text("function_call"));
            put(&mut m, "call_id", Json::text(tc.id.0.as_str()));
            put(&mut m, "name", Json::text(tc.name.as_str()));
            put(&mut m, "arguments", Json::Text(build_arguments(&tc.arguments)));
            append(&mut calls, Json::Object(m));
        }
        i = i + 1;
    }
    assert(blocks@.take(i as int) =~= blocks@);
    calls
}

fn push_spoken(out: &mut Vec<Json>, role: &str, blocks: &Vec<ContentBlock>)
    ensures
        trees(final(out)@) == trees(old(out)@) + spoken_items(role@, blocks@),
{
    let ghost start = trees(out@);
    let calls = build_calls(blocks);
    if calls.len() > 0 {
        let text = extract_text_content(blocks);
        if !text.as_str().is_empty() {
            append(out, build_item(role, Json::Text(text)));
        }
        let ghost middle = trees(out@);
        let ghost items = trees(calls@);
        let mut i: usize = 0;
        assert(middle + items.take(0) =~= middle);
        while i < calls.len()
            invariant
                i <= calls@.len(),
                items == trees(calls@),
                trees(out@) == middle + items.take(i as int),
            decreases calls.len() - i,
        {
            append(out, calls[i].duplicate());
            i = i + 1;
            assert(middle + items.take(i as int) =~= (middle + items.take(i - 1)).push(
                items[i - 1],
            ));
        }
        assert(items.take(i as int) =~= items);
        assert(trees(out@) =~= start + spoken_items(role@, blocks@));
    } else {
        append(out, build_item(role, build_message_content(blocks)));
        assert(trees(out@) =~= start + spoken_items(role@, blocks@));
    }
}

fn build_input(messages: &Vec<Message>) -> (out: Vec<Json>)
    ensures
        trees(out@) == input_of(messages@),
{
    let mut out = no_values();
    let mut i: usize = 0;
    while i < messages.len()
        invariant
            i <= messages@.len(),
            trees(out@) == input_of(messages@.take(i as int)),
        decreases messages.len() - i,
    {
        let message = &messages[i];
        proof {
            assert(messages@.take(i + 1).drop_last() =~= messages@.take(i as int));
            assert(messages@.take(i + 1).last() == *message);
            assert(input_of(messages@.take(i as int)) + Seq::<Tree>::empty() =~= input_of(
                messages@.take(i as int),
            ));
        }
        match message.role {
            MessageRole::User => push_spoken(&mut out, "user", &message.content),
            MessageRole::Assistant => push_spoken(&mut out, "assistant", &message.content),
            MessageRole::Tool => push_outputs(&mut out, &message.content),
            MessageRole::System => {},
        }
        i = i + 1;
    }
    assert(messages@.take(i as int) =~= messages@);
    out
}

// ---------------------------------------------------------------------------
// Laws
// ---------------------------------------------------------------------------

/// A system message inside the conversation never becomes an input item.
pub proof fn system_messages_leave_the_input(before: Seq<Message>, system: Message, after: Seq<
    Message,
>)
    requires
        system.role == MessageRole::System,
    ensures
        input_of(before.push(system) + after) == input_of(before + after),
    decreases after.len(),
{
    if after.len() == 0 {
        assert((before.push(system) + after) =~= before.push(system));
        assert(before.push(system).drop_last() =~= before);
        assert(before + after =~= before);
        assert(input_of(before) + Seq::<Tree>::empty() =~= input_of(before));
    } else {
        assert((before.push(system) + after).drop_last() =~= before.push(system)
            + after.drop_last());
        assert((before + after).drop_last() =~= before + after.drop_last());
        system_messages_leave_the_input(before, system, after.drop_last());
    }
}

/// The effort that is sent never exceeds the one asked for where the model
/// advertises its levels and one of them is low enough: it is an advertised
/// name of a level that is not above.
pub proof fn advertised_effort_is_sent(effort: ReasoningEffort, policy: ResolvedPolicy)
    requires
        policy.supported_efforts is Some,
        effort.clamped(texts(policy.supported_efforts->0@)) is Some,
    ensures
        texts(policy.supported_efforts->0@).contains(effort_name(effort, policy)),
        exists|level: ReasoningEffort|
            level.rank() <= effort.rank() && #[trigger] level.name() == effort_name(effort, policy),
{
    lemma_clamped(effort, texts(policy.supported_efforts->0@));
}

proof fn lemma_clamped(effort: ReasoningEffort, advertised: Seq<Seq<char>>)
    requires
        effort.clamped(advertised) is Some,
    ensures
        advertised.contains(effort.clamped(advertised)->0),
        exists|level: ReasoningEffort|
            level.rank() <= effort.rank() && #[trigger] level.name() == effort.clamped(
                advertised,
            )->0,
    decreases effort.rank(),
{
    if advertised.contains(effort.name()) {
        assert(effort.name() == effort.clamped(advertised)->0);
    } else {
        let weaker = effort.weaker()->0;
        lemma_clamped(weaker, advertised);
        let level = choose|level: ReasoningEffort|
            level.rank() <= weaker.rank() && #[trigger] level.name() == weaker.clamped(
                advertised,
            )->0;
        assert(level.name() == effort.clamped(advertised)->0);
    }
}

} // verus!
