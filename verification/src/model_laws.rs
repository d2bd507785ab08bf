//! What the models of values say: each part of a value under its own name.
use vstd::prelude::*;

use crate::canonical::{block_models, BinarySource, ContentBlock, ToolCallArguments};
use crate::gemini::wire::{
    Content, FunctionDeclaration, GenerateContentRequest, GenerationConfig, Part, Tool,
};
use crate::github_copilot::models::ModelMetadata;
use crate::github_copilot::token_manager::{
    act, after_event, held_after_act, load_message, Act, CacheEvent, CopilotToken, Happening,
    TokenAction, TokenEvent, TokenModel,
};
use crate::json::{number_text, opt_text, opt_tree, Json, Tree};
use crate::stream::{events, Event, Stop, StopReason, StreamEvent};

verus! {

/// A text that may be missing is missing in its model, or stands there as it is;
/// and so does a value.
pub proof fn optional_values_are_kept(text: Option<String>, value: Option<Json>)
    ensures
        opt_text(text) is Some <==> text is Some,
        text is Some ==> opt_text(text)->0 == text->0@,
        opt_tree(value) is Some <==> value is Some,
        value is Some ==> opt_tree(value)->0 == value->0@,
{
}

/// The tree of a value is of its sort and holds what it holds, the items and
/// the members in order.
pub proof fn values_are_kept(value: Json, i: int)
    ensures
        value is Null <==> value@ is Null,
        value is Bool ==> value@ == Tree::Bool(value->Bool_0),
        value is Number ==> value@ == Tree::Number(number_text(value->Number_0)),
        value is Text ==> value@ == Tree::Text(value->Text_0@),
        value is Array ==> {
            &&& value@ is Array
            &&& value@->Array_0.len() == value->Array_0@.len()
            &&& 0 <= i < value->Array_0@.len() ==> value@->Array_0[i] == value->Array_0@[i]@
        },
        value is Object ==> {
            &&& value@ is Object
            &&& value@->Object_0.len() == value->Object_0@.len()
            &&& 0 <= i < value->Object_0@.len() ==> value@->Object_0[i].0
                == value->Object_0@[i].0@ && value@->Object_0[i].1 == value->Object_0@[i].1@
        },
{
    reveal_with_fuel(Json::view, 2);
}

/// The model of a reason is the reason.
pub proof fn reasons_are_kept(reason: StopReason)
    ensures
        reason is EndTurn <==> reason@ is EndTurn,
        reason is MaxTokens <==> reason@ is MaxTokens,
        reason is StopSequence <==> reason@ is StopSequence,
        reason is ToolUse <==> reason@ is ToolUse,
        reason is ContentFilter <==> reason@ is ContentFilter,
        reason is Other ==> reason@ == Stop::Other(reason->Other_0@),
{
}

/// The model of an event is of its sort, and has its number and what it says.
pub proof fn events_are_kept(event: StreamEvent)
    ensures
        match event@ {
            Event::ResponseStart { id, model, created_at_unix } => {
                &&& event is ResponseStart
                &&& id == event->ResponseStart_id.0@
                &&& model == event->ResponseStart_model@
                &&& created_at_unix == event->created_at_unix
            },
            Event::MessageStart { role } => event is MessageStart && role == event->role,
            Event::ContentBlockStart { index, kind } => {
                &&& event is ContentBlockStart
                &&& index == event->ContentBlockStart_index
                &&& kind == event->kind
            },
            Event::TextDelta { index, text } => {
                &&& event is TextDelta
                &&& index == event->TextDelta_index
                &&& text == event->TextDelta_text@
            },
            Event::ReasoningDelta { index, text } => {
                &&& event is ReasoningDelta
                &&& index == event->ReasoningDelta_index
                &&& text == event->ReasoningDelta_text@
            },
            Event::ToolCallStart { index, id, name } => {
                &&& event is ToolCallStart
                &&& index == event->ToolCallStart_index
                &&& id == event->ToolCallStart_id.0@
                &&& name == event->ToolCallStart_name@
            },
            Event::ToolCallArgumentsDelta { index, json_fragment } => {
                &&& event is ToolCallArgumentsDelta
                &&& index == event->ToolCallArgumentsDelta_index
                &&& json_fragment == event->json_fragment@
            },
            Event::ToolCallStop { index } => {
                &&& event is ToolCallStop
                &&& index == event->ToolCallStop_index
            },
            Event::ContentBlockStop { index } => {
                &&& event is ContentBlockStop
                &&& index == event->ContentBlockStop_index
            },
            Event::UsageDelta { usage } => {
                &&& event is UsageDelta
                &&& usage == event->UsageDelta_usage@
            },
            Event::MessageStop { stop_reason, stop_sequence } => {
                &&& event is MessageStop
                &&& stop_reason == event->stop_reason@
                &&& stop_sequence == opt_text(event->stop_sequence)
            },
            Event::ResponseStop { usage } => {
                &&& event is ResponseStop
                &&& usage is Some <==> event->ResponseStop_usage is Some
                &&& usage is Some ==> usage->0 == event->ResponseStop_usage->0@
            },
            Event::RawProviderEvent { name, payload } => {
                &&& event is RawProviderEvent
                &&& name == event->RawProviderEvent_name@
                &&& payload == event->payload@
            },
            Event::Error { message } => event is Error && message == event->message@,
        },
{
}

/// The models of events and of blocks stand in the order of these.
pub proof fn models_stand_in_order(
    out: Seq<StreamEvent>,
    event: StreamEvent,
    blocks: Seq<ContentBlock>,
    block: ContentBlock,
)
    ensures
        events(Seq::empty()).len() == 0,
        events(out.push(event)) == events(out).push(event@),
        block_models(Seq::empty()).len() == 0,
        block_models(blocks.push(block)) == block_models(blocks).push(block@),
{
    assert(events(out.push(event)) =~= events(out).push(event@));
    assert(block_models(blocks.push(block)) =~= block_models(blocks).push(block@));
}

/// The model of a source, or of arguments, is of its sort and has what it holds.
pub proof fn sources_and_arguments_are_kept(source: BinarySource, arguments: ToolCallArguments)
    ensures
        source is Base64 ==> source@ is Base64 && source@->Base64_media_type
            == source->Base64_media_type@ && source@->Base64_data == source->Base64_data@,
        source is Bytes ==> source@ is Bytes && source@->Bytes_media_type
            == source->Bytes_media_type@ && source@->Bytes_data == source->Bytes_data@,
        source is Url ==> source@ is Url && source@->url == source->url@,
        source is ProviderFileId ==> source@ is ProviderFileId && source@->file_id
            == source->file_id@,
        arguments is Complete ==> arguments@ is Complete && arguments@->value
            == arguments->value@,
        arguments is Streaming ==> arguments@ is Streaming && arguments@->data
            == arguments->data@,
{
}

/// The model of a block is of its sort and has what it holds. What travels with
/// a block is its own, and nothing travels with unsupported content.
pub proof fn blocks_are_kept(block: ContentBlock)
    ensures
        match block {
            ContentBlock::Text(b) => {
                &&& block@ is Text
                &&& block@->Text_text == b.text@
                &&& block.extension_members() == b.extensions@
            },
            ContentBlock::Image(b) => {
                &&& block@ is Image
                &&& block@->Image_source == b.source@
                &&& block.extension_members() == b.extensions@
            },
            ContentBlock::Audio(b) => {
                &&& block@ is Audio
                &&& block@->Audio_source == b.source@
                &&& block.extension_members() == b.extensions@
            },
            ContentBlock::File(b) => {
                &&& block@ is File
                &&& block@->File_source == b.source@
                &&& block.extension_members() == b.extensions@
            },
            ContentBlock::ToolCall(b) => {
                &&& block@ is ToolCall
                &&& block@->id == b.id.0@
                &&& block@->name == b.name@
                &&& block@->arguments == b.arguments@
                &&& block.extension_members() == b.extensions@
            },
            ContentBlock::ToolResult(b) => {
                &&& block@ is ToolResult
                &&& block@->tool_call_id == b.tool_call_id.0@
                &&& block@->content == b.content@
                &&& block@->is_error == b.is_error
                &&& block.extension_members() == b.extensions@
            },
            ContentBlock::Reasoning(b) => {
                &&& block@ is Reasoning
                &&& block@->Reasoning_text == b.text@
                &&& block.extension_members() == b.extensions@
            },
            ContentBlock::RedactedReasoning(b) => {
                &&& block@ is RedactedReasoning
                &&& block@->data == b.data@
                &&& block.extension_members() == b.extensions@
            },
            ContentBlock::Unsupported(b) => {
                &&& block@ is Unsupported
                &&& block@->origin == b.origin@
                &&& block@->raw == b.raw@
                &&& block.extension_members().len() == 0
            },
        },
{
}

/// The model of a part has each field of it under its own name.
pub proof fn parts_are_kept(part: Part)
    ensures
        part@.text == opt_text(part.text),
        part@.thought == part.thought,
        part@.inline_data is Some <==> part.inline_data is Some,
        part.inline_data is Some ==> part@.inline_data->Some_0.0 == part.inline_data->0.mime_type@
            && part@.inline_data->Some_0.1 == part.inline_data->0.data@,
        part@.file_data is Some <==> part.file_data is Some,
        part.file_data is Some ==> part@.file_data->Some_0.0 == part.file_data->0.mime_type@
            && part@.file_data->Some_0.1 == part.file_data->0.file_uri@,
        part@.function_call is Some <==> part.function_call is Some,
        part.function_call is Some ==> part@.function_call->Some_0.0 == part.function_call->0.name@
            && part@.function_call->Some_0.1 == opt_tree(part.function_call->0.args)
            && part@.function_call->Some_0.2 == opt_text(part.function_call->0.id),
        part@.function_response is Some <==> part.function_response is Some,
        part.function_response is Some ==> part@.function_response->Some_0.0
            == part.function_response->0.name@ && part@.function_response->Some_0.1
            == part.function_response->0.response@ && part@.function_response->Some_0.2 == opt_text(
            part.function_response->0.id,
        ),
{
}

/// The models of turns, declarations and parameters have each field of them
/// under its own name.
pub proof fn generate_content_parts_are_kept(
    content: Content,
    tool: Tool,
    declaration: FunctionDeclaration,
    config: GenerationConfig,
    i: int,
)
    ensures
        content@.role == content.role@,
        content@.parts.len() == content.parts@.len(),
        0 <= i < content.parts@.len() ==> content@.parts[i] == content.parts@[i]@,
        tool@.len() == tool.function_declarations@.len(),
        0 <= i < tool.function_declarations@.len() ==> tool@[i]
            == tool.function_declarations@[i]@,
        declaration@.name == declaration.name@,
        declaration@.description == opt_text(declaration.description),
        declaration@.parameters == opt_tree(declaration.parameters),
        config@.temperature == opt_tree(config.temperature),
        config@.top_p == opt_tree(config.top_p),
        config@.top_k == config.top_k,
        config@.max_output_tokens == config.max_output_tokens,
        config@.stop_sequences is Some <==> config.stop_sequences is Some,
        config.stop_sequences is Some ==> config@.stop_sequences->0.len()
            == config.stop_sequences->0@.len(),
        config.stop_sequences is Some && 0 <= i < config.stop_sequences->0@.len()
            ==> config@.stop_sequences->0[i] == config.stop_sequences->0@[i]@,
        config@.response_mime_type == opt_text(config.response_mime_type),
        config@.response_schema == opt_tree(config.response_schema),
        config@.thinking_config == config.thinking_config,
{
}

/// The model of a Generate Content request has each field of it under its own
/// name, and its turns, tools and settings in order.
pub proof fn generate_content_requests_are_kept(request: GenerateContentRequest, i: int)
    ensures
        request@.contents.len() == request.contents@.len(),
        0 <= i < request.contents@.len() ==> request@.contents[i] == request.contents@[i]@,
        request@.system_instruction is Some <==> request.system_instruction is Some,
        request.system_instruction is Some ==> request@.system_instruction->0
            == request.system_instruction->0@,
        request@.tools is Some <==> request.tools is Some,
        request.tools is Some ==> request@.tools->0.len() == request.tools->0@.len(),
        request.tools is Some && 0 <= i < request.tools->0@.len() ==> request@.tools->0[i]
            == request.tools->0@[i]@,
        request@.generation_config is Some <==> request.generation_config is Some,
        request.generation_config is Some ==> request@.generation_config->0
            == request.generation_config->0@,
        request@.safety_settings is Some <==> request.safety_settings is Some,
        request.safety_settings is Some ==> request@.safety_settings->0.len()
            == request.safety_settings->0@.len(),
        request.safety_settings is Some && 0 <= i < request.safety_settings->0@.len() ==> {
            &&& request@.safety_settings->0[i].0 == request.safety_settings->0@[i].category@
            &&& request@.safety_settings->0[i].1 == request.safety_settings->0@[i].threshold@
        },
{
}

/// The facts of a model are those of its description, each under its own name.
pub proof fn model_facts_are_kept(model: ModelMetadata, i: int)
    ensures
        model@.context_window_tokens == model.context_window_tokens,
        model@.max_output_tokens == model.max_output_tokens,
        model@.family == opt_text(model.family),
        model@.version == opt_text(model.version),
        model@.vision == model.supports.vision,
        model@.tool_calls == model.supports.tool_calls,
        model@.streaming == model.supports.streaming,
        model@.structured_outputs == model.supports.structured_outputs,
        model@.reasoning_effort == model.supports.reasoning_effort,
        model@.adaptive_thinking == model.adaptive_thinking,
        model@.thinking_budget_min == model.thinking_budget_min,
        model@.thinking_budget_max == model.thinking_budget_max,
        model@.supported_endpoints is Some <==> model.supported_endpoints is Some,
        model.supported_endpoints is Some ==> model@.supported_endpoints->0.len()
            == model.supported_endpoints->0@.len(),
        model.supported_endpoints is Some && 0 <= i < model.supported_endpoints->0@.len()
            ==> model@.supported_endpoints->0[i] == model.supported_endpoints->0@[i]@,
        model@.reasoning_effort_values is Some <==> model.supports.reasoning_effort_values is Some,
        model.supports.reasoning_effort_values is Some ==> model@.reasoning_effort_values->0.len()
            == model.supports.reasoning_effort_values->0@.len(),
        model.supports.reasoning_effort_values is Some && 0 <= i
            < model.supports.reasoning_effort_values->0@.len()
            ==> model@.reasoning_effort_values->0[i]
            == model.supports.reasoning_effort_values->0@[i]@,
{
}

/// The model of a token has each field of it under its own name. A token that
/// was obtained is kept and served; a failure and an invalidation leave none;
/// and what else happens changes nothing.
pub proof fn tokens_are_kept(
    token: CopilotToken,
    held: Option<TokenModel>,
    happening: Happening,
    event: TokenEvent,
    action: TokenAction,
)
    ensures
        token@.token == token.token@,
        token@.api_base == token.api_base@,
        token@.expires_at_unix == token.expires_at_unix,
        after_event(held, CacheEvent::Exchanged(token@)) == Some(token@),
        after_event(held, CacheEvent::Invalidated) is None,
        after_event(held, CacheEvent::ExchangeFailed) is None,
        match happening {
            Happening::Asked(now) => {
                &&& held_after_act(held, happening) == held
                &&& act(held, happening) == (if held is Some && now + 60
                    < held->0.expires_at_unix {
                    Act::Serve(held->0)
                } else {
                    Act::Load
                })
            },
            Happening::Loaded => {
                &&& held_after_act(held, happening) == held
                &&& act(held, happening) == Act::Exchange
            },
            Happening::NotLoaded => {
                &&& held_after_act(held, happening) == held
                &&& act(held, happening) == Act::Deny
            },
            Happening::Obtained(new) => {
                &&& held_after_act(held, happening) == Some(new)
                &&& act(held, happening) == Act::Serve(new)
            },
            Happening::Failed => {
                &&& held_after_act(held, happening) is None
                &&& act(held, happening) == Act::Deny
            },
        },
        match event@ {
            Happening::Asked(now) => event is Asked && now == event->now,
            Happening::Loaded => event is Loaded && event->Loaded_0 is Ok,
            Happening::NotLoaded => event is Loaded && event->Loaded_0 is Err,
            Happening::Obtained(new) => event is Exchanged && event->Exchanged_0 is Ok && new
                == event->Exchanged_0->Ok_0@,
            Happening::Failed => event is Exchanged && event->Exchanged_0 is Err,
        },
        match action@ {
            Act::Serve(new) => action is Reply && action->Reply_0 is Ok && new
                == action->Reply_0->Ok_0@,
            Act::Deny => action is Reply && action->Reply_0 is Err,
            Act::Load => action is Load,
            Act::Exchange => action is Exchange,
        },
{
}

/// Where credentials cannot be loaded, the message says why and what to do.
pub proof fn missing_credentials_are_explained(error: crate::error::ProviderError)
    ensures
        load_message(error) == "load credentials: "@ + error.shown()
            + " — run `agent-shim copilot login` first"@,
{
}

} // verus!
