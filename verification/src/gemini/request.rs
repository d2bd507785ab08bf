//! Builds the Generate Content request of a canonical request.
use vstd::prelude::*;
use vstd::string::*;

use super::wire::{
    content_models, no_part, opt_config, opt_content, part_models, tool_models, ConfigModel, Content,
    ContentModel, DeclarationModel, FileData, FunctionCall, FunctionDeclaration, FunctionResponse,
    GenerateContentRequest, GenerationConfig, InlineData, Part, PartModel, RequestModel,
    ThinkingConfig, Tool,
};
use crate::canonical::{
    BackendTarget, BinarySource, CanonicalRequest, ContentBlock, Message, MessageRole,
    ReasoningEffort, ResponseFormat, SystemInstruction, ToolCallArguments, ToolDefinition,
};
use crate::json::{copied, object1, opt_text, opt_tree, parsed_text, Json, Tree};
use crate::media::{base64_text, encode_base64};
use crate::text::{same_text, texts};

verus! {

// ---------------------------------------------------------------------------
// Model
// ---------------------------------------------------------------------------

/// The identifiers and names of the tool calls among the blocks.
pub open spec fn block_calls(blocks: Seq<ContentBlock>) -> Seq<(Seq<char>, Seq<char>)>
    decreases blocks.len(),
{
    if blocks.len() == 0 {
        seq![]
    } else {
        let before = block_calls(blocks.drop_last());
        match blocks.last() {
            ContentBlock::ToolCall(tc) => before.push((tc.id.0@, tc.name@)),
            _ => before,
        }
    }
}

/// The identifiers and names of the tool calls of the conversation.
pub open spec fn message_calls(messages: Seq<Message>) -> Seq<(Seq<char>, Seq<char>)>
    decreases messages.len(),
{
    if messages.len() == 0 {
        seq![]
    } else {
        message_calls(messages.drop_last()) + block_calls(messages.last().content@)
    }
}

/// The name of the last call with the identifier, or else the identifier.
pub open spec fn called_name(calls: Seq<(Seq<char>, Seq<char>)>, id: Seq<char>) -> Seq<char>
    decreases calls.len(),
{
    if calls.len() == 0 {
        id
    } else if calls.last().0 == id {
        calls.last().1
    } else {
        called_name(calls.drop_last(), id)
    }
}

/// The part of binary content: inline data, or a reference.
pub open spec fn binary_part(source: BinarySource) -> PartModel {
    match source {
        BinarySource::Base64 { media_type, data } => PartModel {
            inline_data: Some((media_type@, base64_text(data@))),
            ..no_part()
        },
        BinarySource::Bytes { media_type, data } => PartModel {
            inline_data: Some((media_type@, base64_text(data@))),
            ..no_part()
        },
        BinarySource::Url { url } => PartModel { file_data: Some((seq![], url@)), ..no_part() },
        BinarySource::ProviderFileId { file_id } => PartModel {
            file_data: Some((seq![], file_id@)),
            ..no_part()
        },
    }
}

/// The arguments of a call. Text that is no JSON is left out.
pub open spec fn call_args(arguments: ToolCallArguments) -> Option<Tree> {
    match arguments {
        ToolCallArguments::Complete { value } => Some(value@),
        ToolCallArguments::Streaming { data } => match parsed_text(data@) {
            Ok(tree) => Some(tree),
            Err(_) => None,
        },
    }
}

/// A tool result as an object: an object as it is, anything else as its
/// `content`.
pub open spec fn wrapped(content: Tree) -> Tree {
    match content {
        Tree::Object(_) => content,
        _ => Tree::Object(object1("content"@, content)),
    }
}

/// The part of a block, where the API has one.
pub open spec fn part_of(
    block: ContentBlock,
    calls: Seq<(Seq<char>, Seq<char>)>,
) -> Option<PartModel> {
    match block {
        ContentBlock::Text(t) => Some(PartModel { text: Some(t.text@), ..no_part() }),
        ContentBlock::Reasoning(r) => Some(
            PartModel { text: Some(r.text@), thought: Some(true), ..no_part() },
        ),
        ContentBlock::Image(b) => Some(binary_part(b.source)),
        ContentBlock::Audio(b) => Some(binary_part(b.source)),
        ContentBlock::File(b) => Some(binary_part(b.source)),
        ContentBlock::ToolCall(tc) => Some(
            PartModel {
                function_call: Some((tc.name@, call_args(tc.arguments), None)),
                ..no_part()
            },
        ),
        ContentBlock::ToolResult(tr) => Some(
            PartModel {
                function_response: Some(
                    (called_name(calls, tr.tool_call_id.0@), wrapped(tr.content@), None),
                ),
                ..no_part()
            },
        ),
        ContentBlock::RedactedReasoning(_) | ContentBlock::Unsupported(_) => None,
    }
}

/// The parts of the blocks that have one, in order.
pub open spec fn parts_of(
    blocks: Seq<ContentBlock>,
    calls: Seq<(Seq<char>, Seq<char>)>,
) -> Seq<PartModel>
    decreases blocks.len(),
{
    if blocks.len() == 0 {
        seq![]
    } else {
        let before = parts_of(blocks.drop_last(), calls);
        match part_of(blocks.last(), calls) {
            Some(part) => before.push(part),
            None => before,
        }
    }
}

/// The role name of a message.
pub open spec fn role_name(role: MessageRole) -> Seq<char> {
    match role {
        MessageRole::User => "user"@,
        MessageRole::Assistant => "model"@,
        MessageRole::Tool => "function"@,
        MessageRole::System => "user"@,
    }
}

/// The turns of the conversation. A message without parts is left out.
pub open spec fn contents_of(
    messages: Seq<Message>,
    calls: Seq<(Seq<char>, Seq<char>)>,
) -> Seq<ContentModel>
    decreases messages.len(),
{
    if messages.len() == 0 {
        seq![]
    } else {
        let before = contents_of(messages.drop_last(), calls);
        let parts = parts_of(messages.last().content@, calls);
        if parts.len() == 0 {
            before
        } else {
            before.push(ContentModel { role: role_name(messages.last().role), parts })
        }
    }
}

/// The parts of the text blocks.
pub open spec fn text_parts(blocks: Seq<ContentBlock>) -> Seq<PartModel>
    decreases blocks.len(),
{
    if blocks.len() == 0 {
        seq![]
    } else {
        let before = text_parts(blocks.drop_last());
        match blocks.last() {
            ContentBlock::Text(t) => before.push(PartModel { text: Some(t.text@), ..no_part() }),
            _ => before,
        }
    }
}

/// The parts of the text blocks of all system instructions.
pub open spec fn system_parts(system: Seq<SystemInstruction>) -> Seq<PartModel>
    decreases system.len(),
{
    if system.len() == 0 {
        seq![]
    } else {
        system_parts(system.drop_last()) + text_parts(system.last().content@)
    }
}

/// The system instruction, if there is any text.
pub open spec fn system_content(system: Seq<SystemInstruction>) -> Option<ContentModel> {
    if system_parts(system).len() == 0 {
        None
    } else {
        Some(ContentModel { role: "user"@, parts: system_parts(system) })
    }
}

/// The tools, if there are any: one list of declarations.
pub open spec fn tools_of(tools: Seq<ToolDefinition>) -> Option<Seq<Seq<DeclarationModel>>> {
    if tools.len() == 0 {
        None
    } else {
        Some(
            seq![
                Seq::new(
                    tools.len(),
                    |i: int|
                        DeclarationModel {
                            name: tools[i].name@,
                            description: opt_text(tools[i].description),
                            parameters: Some(tools[i].input_schema@),
                        },
                ),
            ],
        )
    }
}

/// The token budget of an effort.
pub open spec fn effort_budget(effort: ReasoningEffort) -> i64 {
    match effort {
        ReasoningEffort::Minimal => 128,
        ReasoningEffort::Low => 256,
        ReasoningEffort::Medium => 1024,
        ReasoningEffort::High => 4096,
        ReasoningEffort::Xhigh => 16384,
        ReasoningEffort::Max => 16384,
    }
}

/// The token budget that applies: one that the request names, or that of the
/// policy's effort, or that of the request's effort.
pub open spec fn budget_of(request: CanonicalRequest) -> Option<i64> {
    let options = request.generation.reasoning;
    if options is Some && options->0.budget_tokens is Some {
        Some(options->0.budget_tokens->0 as i64)
    } else if request.resolved_policy.reasoning_effort is Some {
        Some(effort_budget(request.resolved_policy.reasoning_effort->0))
    } else if options is Some && options->0.effort is Some {
        Some(effort_budget(options->0.effort->0))
    } else {
        None
    }
}

/// The thinking configuration. Thoughts are asked for whenever there is a
/// budget.
pub open spec fn thinking_of(request: CanonicalRequest) -> Option<ThinkingConfig> {
    match budget_of(request) {
        Some(budget) => Some(
            ThinkingConfig { thinking_budget: Some(budget), include_thoughts: Some(true) },
        ),
        None => None,
    }
}

pub open spec fn wide(n: Option<u32>) -> Option<i64> {
    match n {
        Some(n) => Some(n as i64),
        None => None,
    }
}

/// The generation parameters as they would be sent.
pub open spec fn full_config(request: CanonicalRequest) -> ConfigModel {
    let options = request.generation;
    ConfigModel {
        temperature: opt_tree(options.temperature),
        top_p: opt_tree(options.top_p),
        top_k: wide(options.top_k),
        max_output_tokens: wide(options.max_tokens),
        stop_sequences: if options.stop_sequences@.len() == 0 {
            None
        } else {
            Some(texts(options.stop_sequences@))
        },
        response_mime_type: match request.response_format {
            None | Some(ResponseFormat::Text) => None,
            _ => Some("application/json"@),
        },
        response_schema: match request.response_format {
            Some(ResponseFormat::JsonSchema { schema, .. }) => Some(schema@),
            _ => None,
        },
        thinking_config: thinking_of(request),
    }
}

/// Whether any parameter is set.
pub open spec fn any_set(c: ConfigModel) -> bool {
    c.temperature is Some || c.top_p is Some || c.top_k is Some || c.max_output_tokens is Some
        || c.stop_sequences is Some || c.response_mime_type is Some || c.response_schema is Some
        || c.thinking_config is Some
}

/// The generation parameters, if any is set.
pub open spec fn config_of(request: CanonicalRequest) -> Option<ConfigModel> {
    if any_set(full_config(request)) {
        Some(full_config(request))
    } else {
        None
    }
}

/// The request.
pub open spec fn content_request(request: CanonicalRequest) -> RequestModel {
    RequestModel {
        contents: contents_of(request.messages@, message_calls(request.messages@)),
        system_instruction: system_content(request.system@),
        tools: tools_of(request.tools@),
        generation_config: config_of(request),
        safety_settings: None,
    }
}

// ---------------------------------------------------------------------------
// Encoder
// ---------------------------------------------------------------------------

/// Builds a request. The model is named by the URL.
pub fn build(req: &CanonicalRequest, _target: &BackendTarget) -> (request: GenerateContentRequest)
    ensures
        request@ == content_request(*req),
{
    let calls = collect_tool_call_names(req);
    GenerateContentRequest {
        contents: build_contents(req, &calls),
        system_instruction: build_system_instruction(req),
        tools: build_tools(req),
        generation_config: build_generation_config(req),
        safety_settings: None,
    }
}

/// The texts of pairs of strings.
pub open spec fn pair_texts(pairs: Seq<(String, String)>) -> Seq<(Seq<char>, Seq<char>)> {
    Seq::new(pairs.len(), |i: int| (pairs[i].0@, pairs[i].1@))
}

fn collect_tool_call_names(req: &CanonicalRequest) -> (calls: Vec<(String, String)>)
    ensures
        pair_texts(calls@) == message_calls(req.messages@),
{
    let mut calls: Vec<(String, String)> = Vec::new();
    let mut i: usize = 0;
    assert(pair_texts(calls@) =~= seq![]);
    while i < req.messages.len()
        invariant
            i <= req.messages@.len(),
            pair_texts(calls@) == message_calls(req.messages@.take(i as int)),
        decreases req.messages.len() - i,
    {
        let content = &req.messages[i].content;
        let ghost before = pair_texts(calls@);
        let mut k: usize = 0;
        assert(before + block_calls(content@.take(0)) =~= before);
        while k < content.len()
            invariant
                k <= content@.len(),
                pair_texts(calls@) == before + block_calls(content@.take(k as int)),
            decreases content.len() - k,
        {
            proof {
                assert(content@.take(k + 1).drop_last() =~= content@.take(k as int));
                assert(content@.take(k + 1).last() == content@[k as int]);
            }
            if let ContentBlock::ToolCall(tc) = &content[k] {
                let ghost old_calls = calls@;
                calls.push((tc.id.0.clone(), tc.name.clone()));
                assert(pair_texts(calls@) =~= pair_texts(old_calls).push((tc.id.0@, tc.name@)));
                assert(pair_texts(calls@) =~= before + block_calls(content@.take(k + 1)));
            }
            k = k + 1;
        }
        proof {
            assert(content@.take(k as int) =~= content@);
            assert(req.messages@.take(i + 1).drop_last() =~= req.messages@.take(i as int));
            assert(req.messages@.take(i + 1).last() == req.messages@[i as int]);
        }
        i = i + 1;
    }
    assert(req.messages@.take(i as int) =~= req.messages@);
    calls
}

fn find_name(calls: &Vec<(String, String)>, id: &str) -> (name: String)
    ensures
        name@ == called_name(pair_texts(calls@), id@),
{
    let ghost all = pair_texts(calls@);
    let mut n: usize = calls.len();
    assert(all.take(n as int) =~= all);
    while n > 0
        invariant
            n <= calls@.len(),
            all == pair_texts(calls@),
            called_name(all, id@) == called_name(all.take(n as int), id@),
        decreases n,
    {
        let call = &calls[n - 1];
        assert(all.take(n as int).drop_last() =~= all.take(n - 1));
        if same_text(call.0.as_str(), id) {
            return call.1.clone();
        }
        n = n - 1;
    }
    id.to_owned()
}

fn binary_to_part(source: &BinarySource) -> (part: Part)
    ensures
        part@ == binary_part(*source),
{
    let mut part = Part::default();
    match source {
        BinarySource::Base64 { media_type, data } => {
            part.inline_data = Some(
                InlineData {
                    mime_type: media_type.clone(),
                    data: encode_base64(data.as_slice()),
                },
            );
        },
        BinarySource::Bytes { media_type, data } => {
            part.inline_data = Some(
                InlineData {
                    mime_type: media_type.clone(),
                    data: encode_base64(data.as_slice()),
                },
            );
        },
        BinarySource::Url { url } => {
            part.file_data = Some(FileData { mime_type: String::new(), file_uri: url.clone() });
            assert((part@.file_data->0).0 =~= seq![]);
        },
        BinarySource::ProviderFileId { file_id } => {
            part.file_data = Some(FileData { mime_type: String::new(), file_uri: file_id.clone() });
            assert((part@.file_data->0).0 =~= seq![]);
        },
    }
    part
}

fn wrap_tool_result_content(content: &Json) -> (value: Json)
    ensures
        value@ == wrapped(content@),
{
    match content {
        Json::Object(_) => content.duplicate(),
        _ => Json::object1("content", content.duplicate()),
    }
}

fn text_part(text: &str, thought: Option<bool>) -> (part: Part)
    ensures
        part@ == (PartModel { text: Some(text@), thought, ..no_part() }),
{
    let mut part = Part::default();
    part.text = Some(text.to_owned());
    part.thought = thought;
    part
}

/// Builds the part of a block.
fn block_to_part(block: &ContentBlock, calls: &Vec<(String, String)>) -> (part: Option<Part>)
    ensures
        match part {
            Some(p) => part_of(*block, pair_texts(calls@)) == Some(p@),
            None => part_of(*block, pair_texts(calls@)) is None,
        },
{
    match block {
        ContentBlock::Text(t) => Some(text_part(t.text.as_str(), None)),
        ContentBlock::Reasoning(r) => Some(text_part(r.text.as_str(), Some(true))),
        ContentBlock::Image(b) => Some(binary_to_part(&b.source)),
        ContentBlock::Audio(b) => Some(binary_to_part(&b.source)),
        ContentBlock::File(b) => Some(binary_to_part(&b.source)),
        ContentBlock::ToolCall(tc) => {
            let args = match &tc.arguments {
                ToolCallArguments::Complete { value } => Some(value.duplicate()),
                ToolCallArguments::Streaming { data } => match Json::parse(data.as_str()) {
                    Ok(value) => Some(value),
                    Err(_) => None,
                },
            };
            let mut part = Part::default();
            part.function_call = Some(FunctionCall { name: tc.name.clone(), args, id: None });
            Some(part)
        },
        ContentBlock::ToolResult(tr) => {
            let mut part = Part::default();
            part.function_response = Some(
                FunctionResponse {
                    name: find_name(calls, tr.tool_call_id.0.as_str()),
                    response: wrap_tool_result_content(&tr.content),
                    id: None,
                },
            );
            Some(part)
        },
        ContentBlock::RedactedReasoning(_) => None,
        ContentBlock::Unsupported(_) => None,
    }
}

fn build_parts(blocks: &Vec<ContentBlock>, calls: &Vec<(String, String)>) -> (parts: Vec<Part>)
    ensures
        part_models(parts@) == parts_of(blocks@, pair_texts(calls@)),
{
    let ghost names = pair_texts(calls@);
    let mut parts: Vec<Part> = Vec::new();
    let mut i: usize = 0;
    assert(part_models(parts@) =~= seq![]);
    while i < blocks.len()
        invariant
            i <= blocks@.len(),
            names == pair_texts(calls@),
            part_models(parts@) == parts_of(blocks@.take(i as int), names),
        decreases blocks.len() - i,
    {
        proof {
            assert(blocks@.take(i + 1).drop_last() =~= blocks@.take(i as int));
            assert(blocks@.take(i + 1).last() == blocks@[i as int]);
        }
        if let Some(part) = block_to_part(&blocks[i], calls) {
            let ghost before = parts@;
            parts.push(part);
            assert(part_models(parts@) =~= part_models(before).push(part@));
        }
        i = i + 1;
    }
    assert(blocks@.take(i as int) =~= blocks@);
    parts
}

fn build_contents(req: &CanonicalRequest, calls: &Vec<(String, String)>) -> (out: Vec<Content>)
    ensures
        content_models(out@) == contents_of(req.messages@, pair_texts(calls@)),
{
    let ghost names = pair_texts(calls@);
    let mut out: Vec<Content> = Vec::new();
    let mut i: usize = 0;
    assert(content_models(out@) =~= seq![]);
    while i < req.messages.len()
        invariant
            i <= req.messages@.len(),
            names == pair_texts(calls@),
            content_models(out@) == contents_of(req.messages@.take(i as int), names),
        decreases req.messages.len() - i,
    {
        let message = &req.messages[i];
        proof {
            assert(req.messages@.take(i + 1).drop_last() =~= req.messages@.take(i as int));
            assert(req.messages@.take(i + 1).last() == *message);
        }
        let role = match message.role {
            MessageRole::User => "user",
            MessageRole::Assistant => "model",
            MessageRole::Tool => "function",
            MessageRole::System => "user",
        };
        let parts = build_parts(&message.content, calls);
        assert(part_models(parts@).len() == parts@.len());
        if parts.len() > 0 {
            let ghost before = out@;
            let content = Content { role: role.to_owned(), parts };
            out.push(content);
            assert(content_models(out@) =~= content_models(before).push(content@));
        }
        i = i + 1;
    }
    assert(req.messages@.take(i as int) =~= req.messages@);
    out
}

fn build_system_instruction(req: &CanonicalRequest) -> (content: Option<Content>)
    ensures
        opt_content(content) == system_content(req.system@),
{
    let mut parts: Vec<Part> = Vec::new();
    let mut i: usize = 0;
    assert(part_models(parts@) =~= seq![]);
    while i < req.system.len()
        invariant
            i <= req.system@.len(),
            part_models(parts@) == system_parts(req.system@.take(i as int)),
        decreases req.system.len() - i,
    {
        let content = &req.system[i].content;
        let ghost before = part_models(parts@);
        let mut k: usize = 0;
        assert(before + text_parts(content@.take(0)) =~= before);
        while k < content.len()
            invariant
                k <= content@.len(),
                part_models(parts@) == before + text_parts(content@.take(k as int)),
            decreases content.len() - k,
        {
            proof {
                assert(content@.take(k + 1).drop_last() =~= content@.take(k as int));
                assert(content@.take(k + 1).last() == content@[k as int]);
            }
            if let ContentBlock::Text(t) = &content[k] {
                let ghost old_parts = parts@;
                let part = text_part(t.text.as_str(), None);
                parts.push(part);
                assert(part_models(parts@) =~= part_models(old_parts).push(part@));
                assert(part_models(parts@) =~= before + text_parts(content@.take(k + 1)));
            }
            k = k + 1;
        }
        proof {
            assert(content@.take(k as int) =~= content@);
            assert(req.system@.take(i + 1).drop_last() =~= req.system@.take(i as int));
            assert(req.system@.take(i + 1).last() == req.system@[i as int]);
        }
        i = i + 1;
    }
    assert(req.system@.take(i as int) =~= req.system@);
    assert(part_models(parts@).len() == parts@.len());
    if parts.len() == 0 {
        None
    } else {
        Some(Content { role: "user".to_owned(), parts })
    }
}

fn build_tools(req: &CanonicalRequest) -> (tools: Option<Vec<Tool>>)
    ensures
        tool_models(tools) == tools_of(req.tools@),
{
    if req.tools.len() == 0 {
        return None;
    }
    let mut declarations: Vec<FunctionDeclaration> = Vec::new();
    let mut i: usize = 0;
    while i < req.tools.len()
        invariant
            i <= req.tools@.len(),
            declarations@.len() == i,
            forall|k: int|
                0 <= k < i ==> (#[trigger] declarations@[k])@ == (DeclarationModel {
                    name: req.tools@[k].name@,
                    description: opt_text(req.tools@[k].description),
                    parameters: Some(req.tools@[k].input_schema@),
                }),
        decreases req.tools.len() - i,
    {
        let tool = &req.tools[i];
        let description = match &tool.description {
            Some(text) => Some(text.clone()),
            None => None,
        };
        declarations.push(
            FunctionDeclaration {
                name: tool.name.clone(),
                description,
                parameters: Some(tool.input_schema.duplicate()),
            },
        );
        i = i + 1;
    }
    let tool = Tool { function_declarations: declarations };
    let mut tools: Vec<Tool> = Vec::new();
    tools.push(tool);
    proof {
        let wanted = tools_of(req.tools@)->0;
        assert(tools@[0]@ =~= wanted[0]);
        assert(tool_models(Some(tools))->0 =~= wanted);
    }
    Some(tools)
}

fn widen(n: Option<u32>) -> (m: Option<i64>)
    ensures
        m == wide(n),
{
    match n {
        Some(n) => Some(n as i64),
        None => None,
    }
}

fn build_generation_config(req: &CanonicalRequest) -> (config: Option<GenerationConfig>)
    ensures
        opt_config(config) == config_of(*req),
{
    let options = &req.generation;
    let stop_sequences = if options.stop_sequences.len() == 0 {
        None
    } else {
        Some(copy_strings(&options.stop_sequences))
    };
    let response_mime_type = match &req.response_format {
        None => None,
        Some(ResponseFormat::Text) => None,
        Some(ResponseFormat::JsonObject) => Some("application/json".to_owned()),
        Some(ResponseFormat::JsonSchema { .. }) => Some("application/json".to_owned()),
    };
    let response_schema = match &req.response_format {
        Some(ResponseFormat::JsonSchema { schema, .. }) => Some(schema.duplicate()),
        _ => None,
    };
    let thinking = thinking_config(req);
    let any = options.max_tokens.is_some() || options.temperature.is_some()
        || options.top_p.is_some() || options.top_k.is_some() || stop_sequences.is_some()
        || response_mime_type.is_some() || response_schema.is_some() || thinking.is_some();
    let config = GenerationConfig {
        temperature: copied(&options.temperature),
        top_p: copied(&options.top_p),
        top_k: widen(options.top_k),
        max_output_tokens: widen(options.max_tokens),
        stop_sequences,
        response_mime_type,
        response_schema,
        thinking_config: thinking,
    };
    assert(config@ =~= full_config(*req));
    if any {
        Some(config)
    } else {
        None
    }
}

fn copy_strings(strings: &Vec<String>) -> (copy: Vec<String>)
    ensures
        texts(copy@) == texts(strings@),
{
    let mut copy: Vec<String> = Vec::new();
    let mut i: usize = 0;
    while i < strings.len()
        invariant
            i <= strings@.len(),
            copy@.len() == i,
            forall|k: int| 0 <= k < i ==> (#[trigger] copy@[k])@ == strings@[k]@,
        decreases strings.len() - i,
    {
        copy.push(strings[i].clone());
        i = i + 1;
    }
    assert(texts(copy@) =~= texts(strings@));
    copy
}

/// The thinking configuration of a request.
pub fn thinking_config(req: &CanonicalRequest) -> (config: Option<ThinkingConfig>)
    ensures
        config == thinking_of(*req),
{
    if let Some(options) = req.generation.reasoning {
        if let Some(budget) = options.budget_tokens {
            return Some(
                ThinkingConfig {
                    thinking_budget: Some(budget as i64),
                    include_thoughts: Some(true),
                },
            );
        }
    }
    if let Some(effort) = req.resolved_policy.reasoning_effort {
        return Some(
            ThinkingConfig {
                thinking_budget: Some(effort_to_budget(effort)),
                include_thoughts: Some(true),
            },
        );
    }
    if let Some(options) = req.generation.reasoning {
        if let Some(effort) = options.effort {
            return Some(
                ThinkingConfig {
                    thinking_budget: Some(effort_to_budget(effort)),
                    include_thoughts: Some(true),
                },
            );
        }
    }
    None
}

/// The token budget of an effort.
pub fn effort_to_budget(effort: ReasoningEffort) -> (budget: i64)
    ensures
        budget == effort_budget(effort),
{
    match effort {
        ReasoningEffort::Minimal => 128,
        ReasoningEffort::Low => 256,
        ReasoningEffort::Medium => 1024,
        ReasoningEffort::High => 4096,
        ReasoningEffort::Xhigh => 16384,
        ReasoningEffort::Max => 16384,
    }
}

// ---------------------------------------------------------------------------
// Laws
// ---------------------------------------------------------------------------

/// Thoughts are asked for exactly where a budget is sent.
pub proof fn budget_and_thoughts_go_together(request: CanonicalRequest)
    ensures
        thinking_of(request) is Some <==> budget_of(request) is Some,
        thinking_of(request) is Some ==> thinking_of(request)->0.thinking_budget == budget_of(
            request,
        ) && thinking_of(request)->0.include_thoughts == Some(true),
{
}

/// No turn that is sent is empty.
pub proof fn turns_have_parts(
    messages: Seq<Message>,
    calls: Seq<(Seq<char>, Seq<char>)>,
    i: int,
)
    requires
        0 <= i < contents_of(messages, calls).len(),
    ensures
        contents_of(messages, calls)[i].parts.len() > 0,
    decreases messages.len(),
{
    if messages.len() > 0 {
        if i < contents_of(messages.drop_last(), calls).len() {
            turns_have_parts(messages.drop_last(), calls, i);
        }
    }
}

} // verus!
