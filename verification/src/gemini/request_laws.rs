//! What a Generate Content body says, read back from the body.
use vstd::prelude::*;

use super::request::{
    called_name, config_of, content_request, contents_of, message_calls, part_of, parts_of,
    system_parts, text_parts,
};
use super::wire::{
    config_tree, content_tree, declaration_tree, part_tree, request_tree, tool_tree, ContentModel,
    DeclarationModel, RequestModel,
};
use crate::canonical::{
    BinarySource, CanonicalRequest, ContentBlock, Message, MessageRole, ReasoningEffort,
    ResponseFormat, SystemInstruction, ToolCallArguments, ToolDefinition,
};
use crate::json::{
    member_after_optional, member_after_set, member_of_nothing, parsed_text, tag, Tree,
};
use crate::media::base64_text;
use crate::text::signed_decimal;

verus! {

/// The names of the members differ.
proof fn lemma_names()
    ensures
        tag("text"@) == 5172116,
        tag("thought"@) == 8171816,
        tag("inlineData"@) == 11060197,
        tag("mimeType"@) == 9098501,
        tag("data"@) == 5011697,
        tag("fileData"@) == 9026897,
        tag("fileUri"@) == 8030205,
        tag("functionCall"@) == 13031208,
        tag("name"@) == 5111001,
        tag("args"@) == 4980415,
        tag("id"@) == 3060100,
        tag("functionResponse"@) == 17028301,
        tag("response"@) == 9151201,
        tag("role"@) == 5150901,
        tag("parts"@) == 6131515,
        tag("description"@) == 12010610,
        tag("parameters"@) == 11130215,
        tag("functionDeclarations"@) == 21030015,
        tag("thinkingBudget"@) == 15170416,
        tag("includeThoughts"@) == 16058515,
        tag("temperature"@) == 12171501,
        tag("topP"@) == 5171280,
        tag("topK"@) == 5171275,
        tag("maxOutputTokens"@) == 16101815,
        tag("stopSequences"@) == 14161415,
        tag("responseMimeType"@) == 17147801,
        tag("responseSchema"@) == 15150197,
        tag("thinkingConfig"@) == 15170403,
        tag("category"@) == 9000421,
        tag("threshold"@) == 10171600,
        tag("contents"@) == 9000215,
        tag("systemInstruction"@) == 18161610,
        tag("tools"@) == 6171215,
        tag("generationConfig"@) == 17041203,
        tag("safetySettings"@) == 15160215,
        tag("content"@) == 8001716,
{
    reveal_strlit("text");
    reveal_strlit("thought");
    reveal_strlit("inlineData");
    reveal_strlit("mimeType");
    reveal_strlit("data");
    reveal_strlit("fileData");
    reveal_strlit("fileUri");
    reveal_strlit("functionCall");
    reveal_strlit("name");
    reveal_strlit("args");
    reveal_strlit("id");
    reveal_strlit("functionResponse");
    reveal_strlit("response");
    reveal_strlit("role");
    reveal_strlit("parts");
    reveal_strlit("description");
    reveal_strlit("parameters");
    reveal_strlit("functionDeclarations");
    reveal_strlit("thinkingBudget");
    reveal_strlit("includeThoughts");
    reveal_strlit("temperature");
    reveal_strlit("topP");
    reveal_strlit("topK");
    reveal_strlit("maxOutputTokens");
    reveal_strlit("stopSequences");
    reveal_strlit("responseMimeType");
    reveal_strlit("responseSchema");
    reveal_strlit("thinkingConfig");
    reveal_strlit("category");
    reveal_strlit("threshold");
    reveal_strlit("contents");
    reveal_strlit("systemInstruction");
    reveal_strlit("tools");
    reveal_strlit("generationConfig");
    reveal_strlit("safetySettings");
    reveal_strlit("content");
}

/// The JSON body of a request.
pub open spec fn body_of(request: CanonicalRequest) -> Tree {
    request_tree(content_request(request))
}

/// How many tokens an effort is worth.
pub open spec fn worth(effort: ReasoningEffort) -> int {
    match effort {
        ReasoningEffort::Minimal => 128,
        ReasoningEffort::Low => 256,
        ReasoningEffort::Medium => 1024,
        ReasoningEffort::High => 4096,
        ReasoningEffort::Xhigh | ReasoningEffort::Max => 16384,
    }
}

/// The thinking budget of a request: one that it names, or what the policy's
/// effort is worth, or what its own is.
pub open spec fn budget(request: CanonicalRequest) -> Option<int> {
    let own = request.generation.reasoning;
    if own is Some && own->0.budget_tokens is Some {
        Some(own->0.budget_tokens->0 as int)
    } else if request.resolved_policy.reasoning_effort is Some {
        Some(worth(request.resolved_policy.reasoning_effort->0))
    } else if own is Some && own->0.effort is Some {
        Some(worth(own->0.effort->0))
    } else {
        None
    }
}

/// Every option of a request is read back from the configuration under its own
/// name, as it was given, and is missing where it was not given. There is no
/// configuration where nothing is set.
pub proof fn options_are_read_back(request: CanonicalRequest)
    ensures
        ({
            let o = request.generation;
            let format = request.response_format;
            match body_of(request).get("generationConfig"@) {
                None => {
                    &&& o.temperature is None
                    &&& o.top_p is None
                    &&& o.top_k is None
                    &&& o.max_tokens is None
                    &&& o.stop_sequences@.len() == 0
                    &&& format is None || format == Some(ResponseFormat::Text)
                    &&& budget(request) is None
                },
                Some(c) => {
                    &&& c.get("temperature"@) == (match o.temperature {
                        Some(v) => Some(v@),
                        None => None,
                    })
                    &&& c.get("topP"@) == (match o.top_p {
                        Some(v) => Some(v@),
                        None => None,
                    })
                    &&& c.get("topK"@) == (match o.top_k {
                        Some(n) => Some(Tree::Number(signed_decimal(n as int))),
                        None => None,
                    })
                    &&& c.get("maxOutputTokens"@) == (match o.max_tokens {
                        Some(n) => Some(Tree::Number(signed_decimal(n as int))),
                        None => None,
                    })
                    &&& match c.get("stopSequences"@) {
                        None => o.stop_sequences@.len() == 0,
                        Some(Tree::Array(items)) => {
                            &&& o.stop_sequences@.len() > 0
                            &&& items.len() == o.stop_sequences@.len()
                            &&& forall|i: int|
                                0 <= i < items.len() ==> #[trigger] items[i] == Tree::Text(
                                    o.stop_sequences@[i]@,
                                )
                        },
                        _ => false,
                    }
                    &&& c.get("responseMimeType"@) == (match format {
                        None | Some(ResponseFormat::Text) => None,
                        _ => Some(Tree::Text("application/json"@)),
                    })
                    &&& c.get("responseSchema"@) == (match format {
                        Some(ResponseFormat::JsonSchema { schema, .. }) => Some(schema@),
                        _ => None,
                    })
                    &&& match (c.get("thinkingConfig"@), budget(request)) {
                        (None, None) => true,
                        (Some(t), Some(n)) => {
                            &&& t.get("thinkingBudget"@) == Some(Tree::Number(signed_decimal(n)))
                            &&& t.get("includeThoughts"@) == Some(Tree::Bool(true))
                        },
                        _ => false,
                    }
                },
            }
        }),
{
    broadcast use {member_after_optional, member_after_set, member_of_nothing};

    lemma_names();
    assert(body_of(request).get("generationConfig"@) == (match config_of(request) {
        Some(c) => Some(config_tree(c)),
        None => None,
    }));
    if let Some(c) = config_of(request) {
        let stops = request.generation.stop_sequences@;
        if let Some(texts) = c.stop_sequences {
            assert(texts.len() == stops.len());
            assert forall|i: int| 0 <= i < stops.len() implies #[trigger] texts[i] == stops[i]@ by {}
        }
    }
}

/// Whether a value is a turn.
pub open spec fn is_turn(value: Tree, turn: ContentModel) -> bool {
    &&& value.get("role"@) == Some(Tree::Text(turn.role))
    &&& match value.get("parts"@) {
        Some(Tree::Array(items)) => {
            &&& items.len() == turn.parts.len()
            &&& forall|i: int|
                0 <= i < items.len() ==> #[trigger] items[i] == part_tree(turn.parts[i])
        },
        _ => false,
    }
}

proof fn lemma_turn(turn: ContentModel)
    ensures
        is_turn(content_tree(turn), turn),
{
    broadcast use {member_after_optional, member_after_set, member_of_nothing};

    lemma_names();
}

/// The turns of the conversation are read back in order, and the instruction of
/// the system under the user's role where it has any text. Safety settings are
/// never sent.
pub proof fn turns_are_read_back(request: CanonicalRequest)
    ensures
        ({
            let body = body_of(request);
            let turns = contents_of(request.messages@, message_calls(request.messages@));
            let system = system_parts(request.system@);
            &&& match body.get("contents"@) {
                Some(Tree::Array(items)) => {
                    &&& items.len() == turns.len()
                    &&& forall|i: int|
                        0 <= i < items.len() ==> is_turn(#[trigger] items[i], turns[i])
                },
                _ => false,
            }
            &&& match body.get("systemInstruction"@) {
                None => system.len() == 0,
                Some(value) => system.len() > 0 && is_turn(
                    value,
                    ContentModel { role: "user"@, parts: system },
                ),
            }
            &&& body.get("safetySettings"@) is None
        }),
{
    broadcast use {member_after_optional, member_after_set, member_of_nothing};

    lemma_names();
    let body = body_of(request);
    let turns = contents_of(request.messages@, message_calls(request.messages@));
    let items = Seq::new(turns.len(), |i: int| content_tree(turns[i]));
    assert(body.get("contents"@) == Some(Tree::Array(items)));
    assert forall|i: int| 0 <= i < items.len() implies is_turn(#[trigger] items[i], turns[i]) by {
        lemma_turn(turns[i]);
    }
    lemma_turn(ContentModel { role: "user"@, parts: system_parts(request.system@) });
}

/// Each message that has parts is a turn under its role; one without is left
/// out.
pub proof fn message_is_a_turn(
    before: Seq<Message>,
    message: Message,
    calls: Seq<(Seq<char>, Seq<char>)>,
)
    ensures
        contents_of(Seq::empty(), calls).len() == 0,
        ({
            let parts = parts_of(message.content@, calls);
            let old_turns = contents_of(before, calls);
            contents_of(before.push(message), calls) == (if parts.len() == 0 {
                old_turns
            } else {
                old_turns.push(
                    ContentModel {
                        role: match message.role {
                            MessageRole::Assistant => "model"@,
                            MessageRole::Tool => "function"@,
                            _ => "user"@,
                        },
                        parts,
                    },
                )
            })
        }),
{
    assert(before.push(message).drop_last() =~= before);
}

/// A result answers the call of its identifier that came last, by its name, or
/// goes under the identifier itself where there was none.
pub proof fn names_are_found(
    messages: Seq<Message>,
    message: Message,
    calls: Seq<(Seq<char>, Seq<char>)>,
    id: Seq<char>,
    other: Seq<char>,
    name: Seq<char>,
    blocks: Seq<ContentBlock>,
    block: ContentBlock,
)
    ensures
        called_name(Seq::empty(), id) == id,
        called_name(calls.push((other, name)), id) == (if other == id {
            name
        } else {
            called_name(calls, id)
        }),
        message_calls(Seq::empty()).len() == 0,
        message_calls(messages.push(message)) == message_calls(messages)
            + super::request::block_calls(message.content@),
        super::request::block_calls(Seq::empty()).len() == 0,
        super::request::block_calls(blocks.push(block)) == (match block {
            ContentBlock::ToolCall(call) => super::request::block_calls(blocks).push(
                (call.id.0@, call.name@),
            ),
            _ => super::request::block_calls(blocks),
        }),
{
    assert(calls.push((other, name)).drop_last() =~= calls);
    assert(messages.push(message).drop_last() =~= messages);
    assert(blocks.push(block).drop_last() =~= blocks);
}

/// Whether a part has only the member `key`.
pub open spec fn has_only(value: Tree, key: Seq<char>) -> bool {
    &&& key != "text"@ ==> value.get("text"@) is None
    &&& key != "inlineData"@ ==> value.get("inlineData"@) is None
    &&& key != "fileData"@ ==> value.get("fileData"@) is None
    &&& key != "functionCall"@ ==> value.get("functionCall"@) is None
    &&& key != "functionResponse"@ ==> value.get("functionResponse"@) is None
}

/// Whether a part points at binary content.
pub open spec fn is_binary(value: Tree, source: BinarySource) -> bool {
    match source {
        BinarySource::Base64 { media_type, data } | BinarySource::Bytes { media_type, data } => {
            &&& has_only(value, "inlineData"@)
            &&& match value.get("inlineData"@) {
                Some(d) => {
                    &&& d.get("mimeType"@) == Some(Tree::Text(media_type@))
                    &&& d.get("data"@) == Some(Tree::Text(base64_text(data@)))
                },
                None => false,
            }
        },
        BinarySource::Url { url: uri } | BinarySource::ProviderFileId { file_id: uri } => {
            &&& has_only(value, "fileData"@)
            &&& match value.get("fileData"@) {
                Some(d) => {
                    &&& d.get("mimeType"@) == Some(Tree::Text(seq![]))
                    &&& d.get("fileUri"@) == Some(Tree::Text(uri@))
                },
                None => false,
            }
        },
    }
}

/// Whether a value is the part of a block, with all that the block says.
pub open spec fn is_part(
    value: Tree,
    block: ContentBlock,
    calls: Seq<(Seq<char>, Seq<char>)>,
) -> bool {
    match block {
        ContentBlock::Text(t) => {
            &&& has_only(value, "text"@)
            &&& value.get("text"@) == Some(Tree::Text(t.text@))
            &&& value.get("thought"@) is None
        },
        ContentBlock::Reasoning(r) => {
            &&& has_only(value, "text"@)
            &&& value.get("text"@) == Some(Tree::Text(r.text@))
            &&& value.get("thought"@) == Some(Tree::Bool(true))
        },
        ContentBlock::Image(b) => is_binary(value, b.source),
        ContentBlock::Audio(b) => is_binary(value, b.source),
        ContentBlock::File(b) => is_binary(value, b.source),
        ContentBlock::ToolCall(call) => {
            &&& has_only(value, "functionCall"@)
            &&& match value.get("functionCall"@) {
                Some(c) => {
                    &&& c.get("name"@) == Some(Tree::Text(call.name@))
                    &&& c.get("args"@) == (match call.arguments {
                        ToolCallArguments::Complete { value } => Some(value@),
                        ToolCallArguments::Streaming { data } => match parsed_text(data@) {
                            Ok(tree) => Some(tree),
                            Err(_) => None,
                        },
                    })
                    &&& c.get("id"@) is None
                },
                None => false,
            }
        },
        ContentBlock::ToolResult(result) => {
            &&& has_only(value, "functionResponse"@)
            &&& match value.get("functionResponse"@) {
                Some(r) => {
                    &&& r.get("name"@) == Some(
                        Tree::Text(called_name(calls, result.tool_call_id.0@)),
                    )
                    &&& r.get("id"@) is None
                    &&& match result.content@ {
                        Tree::Object(_) => r.get("response"@) == Some(result.content@),
                        other => match r.get("response"@) {
                            Some(wrapped) => wrapped.get("content"@) == Some(other),
                            None => false,
                        },
                    }
                },
                None => false,
            }
        },
        _ => false,
    }
}

/// One more block adds its part behind the others, with all that it says. What
/// is redacted or unsupported adds none.
pub proof fn block_adds_its_part(
    before: Seq<ContentBlock>,
    block: ContentBlock,
    calls: Seq<(Seq<char>, Seq<char>)>,
)
    ensures
        parts_of(Seq::empty(), calls).len() == 0,
        ({
            let old_parts = parts_of(before, calls);
            let parts = parts_of(before.push(block), calls);
            if block is RedactedReasoning || block is Unsupported {
                parts == old_parts
            } else {
                &&& parts.len() == old_parts.len() + 1
                &&& parts.drop_last() == old_parts
                &&& is_part(part_tree(parts.last()), block, calls)
            }
        }),
{
    broadcast use {member_after_optional, member_after_set, member_of_nothing};

    lemma_names();
    assert(before.push(block).drop_last() =~= before);
    if let Some(part) = part_of(block, calls) {
        assert(parts_of(before.push(block), calls) == parts_of(before, calls).push(part));
        assert(parts_of(before, calls).push(part).drop_last() =~= parts_of(before, calls));
    }
}

/// The system instruction has a part for each text block of each instruction,
/// in order, and no others.
pub proof fn system_texts_are_parts(
    before: Seq<SystemInstruction>,
    next: SystemInstruction,
    blocks: Seq<ContentBlock>,
    block: ContentBlock,
)
    ensures
        system_parts(Seq::empty()).len() == 0,
        system_parts(before.push(next)) == system_parts(before) + text_parts(next.content@),
        text_parts(Seq::empty()).len() == 0,
        ({
            let parts = text_parts(blocks.push(block));
            match block {
                ContentBlock::Text(t) => {
                    &&& parts.len() == text_parts(blocks).len() + 1
                    &&& parts.drop_last() == text_parts(blocks)
                    &&& has_only(part_tree(parts.last()), "text"@)
                    &&& part_tree(parts.last()).get("text"@) == Some(Tree::Text(t.text@))
                    &&& part_tree(parts.last()).get("thought"@) is None
                },
                _ => parts == text_parts(blocks),
            }
        }),
{
    broadcast use {member_after_optional, member_after_set, member_of_nothing};

    lemma_names();
    assert(before.push(next).drop_last() =~= before);
    assert(blocks.push(block).drop_last() =~= blocks);
    if block is Text {
        assert(text_parts(blocks.push(block)).drop_last() =~= text_parts(blocks));
    }
}

/// Whether a value is the declaration of a tool.
pub open spec fn is_declaration(value: Tree, tool: ToolDefinition) -> bool {
    &&& value.get("name"@) == Some(Tree::Text(tool.name@))
    &&& value.get("description"@) == (match tool.description {
        Some(text) => Some(Tree::Text(text@)),
        None => None,
    })
    &&& value.get("parameters"@) == Some(tool.input_schema@)
}

/// All tools are declared in one list, each at its place with its name,
/// description and schema; there is no list without tools.
pub proof fn tools_are_read_back(request: CanonicalRequest)
    ensures
        ({
            let tools = request.tools@;
            match body_of(request).get("tools"@) {
                None => tools.len() == 0,
                Some(Tree::Array(lists)) => {
                    &&& tools.len() > 0
                    &&& lists.len() == 1
                    &&& match lists[0].get("functionDeclarations"@) {
                        Some(Tree::Array(items)) => {
                            &&& items.len() == tools.len()
                            &&& forall|i: int|
                                0 <= i < items.len() ==> is_declaration(
                                    #[trigger] items[i],
                                    tools[i],
                                )
                        },
                        _ => false,
                    }
                },
                _ => false,
            }
        }),
{
    broadcast use {member_after_optional, member_after_set, member_of_nothing};

    lemma_names();
    let tools = request.tools@;
    if tools.len() > 0 {
        let all = super::request::tools_of(tools)->0;
        let lists = Seq::new(all.len(), |i: int| tool_tree(all[i]));
        assert(body_of(request).get("tools"@) == Some(Tree::Array(lists)));
        assert(lists[0] == tool_tree(all[0]));
        let items = Seq::new(all[0].len(), |i: int| declaration_tree(all[0][i]));
        assert(lists[0].get("functionDeclarations"@) == Some(Tree::Array(items)));
        assert forall|i: int| 0 <= i < items.len() implies is_declaration(
            #[trigger] items[i],
            tools[i],
        ) by {
            lemma_declaration(all[0][i]);
        }
    }
}

proof fn lemma_declaration(d: DeclarationModel)
    ensures
        declaration_tree(d).get("name"@) == Some(Tree::Text(d.name)),
        declaration_tree(d).get("description"@) == (match d.description {
            Some(text) => Some(Tree::Text(text)),
            None => None,
        }),
        declaration_tree(d).get("parameters"@) == d.parameters,
{
    broadcast use {member_after_optional, member_after_set, member_of_nothing};

    lemma_names();
}

/// Safety settings stand in a request in order, each with its category and its
/// threshold.
pub proof fn safety_settings_are_read_back(request: RequestModel, i: int)
    ensures
        match request.safety_settings {
            None => request_tree(request).get("safetySettings"@) is None,
            Some(settings) => match request_tree(request).get("safetySettings"@) {
                Some(Tree::Array(items)) => {
                    &&& items.len() == settings.len()
                    &&& 0 <= i < settings.len() ==> items[i].get("category"@) == Some(
                        Tree::Text(settings[i].0),
                    ) && items[i].get("threshold"@) == Some(Tree::Text(settings[i].1))
                },
                _ => false,
            },
        },
{
    broadcast use {member_after_optional, member_after_set, member_of_nothing};

    lemma_names();
    reveal_strlit("category");
    reveal_strlit("threshold");
    assert("category"@.len() == 8 && "threshold"@.len() == 9);
}

} // verus!
