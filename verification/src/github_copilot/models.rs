//! The catalog of models that Copilot offers.
use vstd::prelude::*;
use vstd::string::*;

use super::token_manager::CopilotToken;
use super::EditorIdentity;
use crate::error::{labelled, ProviderError};
use crate::headers::{add_header, header_texts};
use crate::json::{
    array_member, opt_text, parsed_text, str_member, trees, u32_member, Json, Tree,
};
use crate::sorted_map::{inserted, place_from, stands, SortedMap};
use crate::text::{join_url, texts, without_trailing_slashes};
use crate::upstream::{Outgoing, Route};

verus! {

/// What is known of a model. What the catalog does not say is absent.
#[derive(Clone, Debug, PartialEq)]
pub struct ModelMetadata {
    pub context_window_tokens: Option<u32>,
    pub max_output_tokens: Option<u32>,
    pub family: Option<String>,
    pub supported_endpoints: Option<Vec<String>>,
    pub supports: ModelSupports,
    pub version: Option<String>,
    pub adaptive_thinking: Option<bool>,
    pub thinking_budget_min: Option<u32>,
    pub thinking_budget_max: Option<u32>,
}

/// What a model supports.
#[derive(Clone, Debug, PartialEq)]
pub struct ModelSupports {
    pub vision: Option<bool>,
    pub tool_calls: Option<bool>,
    pub streaming: Option<bool>,
    pub structured_outputs: Option<bool>,
    pub reasoning_effort: Option<bool>,
    pub reasoning_effort_values: Option<Vec<String>>,
}

// ---------------------------------------------------------------------------
// Model
// ---------------------------------------------------------------------------

/// The model of `ModelMetadata` and its `ModelSupports`.
#[verifier::ext_equal]
pub struct ModelFacts {
    pub context_window_tokens: Option<u32>,
    pub max_output_tokens: Option<u32>,
    pub family: Option<Seq<char>>,
    pub supported_endpoints: Option<Seq<Seq<char>>>,
    pub vision: Option<bool>,
    pub tool_calls: Option<bool>,
    pub streaming: Option<bool>,
    pub structured_outputs: Option<bool>,
    pub reasoning_effort: Option<bool>,
    pub reasoning_effort_values: Option<Seq<Seq<char>>>,
    pub version: Option<Seq<char>>,
    pub adaptive_thinking: Option<bool>,
    pub thinking_budget_min: Option<u32>,
    pub thinking_budget_max: Option<u32>,
}

/// The texts of an optional list.
pub open spec fn opt_texts(list: Option<Vec<String>>) -> Option<Seq<Seq<char>>> {
    match list {
        Some(v) => Some(texts(v@)),
        None => None,
    }
}

impl ModelMetadata {
    pub open spec fn view(&self) -> ModelFacts {
        ModelFacts {
            context_window_tokens: self.context_window_tokens,
            max_output_tokens: self.max_output_tokens,
            family: opt_text(self.family),
            supported_endpoints: opt_texts(self.supported_endpoints),
            vision: self.supports.vision,
            tool_calls: self.supports.tool_calls,
            streaming: self.supports.streaming,
            structured_outputs: self.supports.structured_outputs,
            reasoning_effort: self.supports.reasoning_effort,
            reasoning_effort_values: opt_texts(self.supports.reasoning_effort_values),
            version: opt_text(self.version),
            adaptive_thinking: self.adaptive_thinking,
            thinking_budget_min: self.thinking_budget_min,
            thinking_budget_max: self.thinking_budget_max,
        }
    }
}

/// A member of what may be absent.
pub open spec fn inner(value: Option<Tree>, key: Seq<char>) -> Option<Tree> {
    match value {
        Some(v) => v.get(key),
        None => None,
    }
}

/// A truth value that may be absent.
pub open spec fn flag(value: Option<Tree>, key: Seq<char>) -> Option<bool> {
    match inner(value, key) {
        Some(v) => v.as_bool(),
        None => None,
    }
}

/// A count that may be absent.
pub open spec fn count(value: Option<Tree>, key: Seq<char>) -> Option<u32> {
    match value {
        Some(v) => u32_member(v, key),
        None => None,
    }
}

/// The texts among items, in order.
pub open spec fn item_texts(items: Seq<Tree>) -> Seq<Seq<char>>
    decreases items.len(),
{
    if items.len() == 0 {
        seq![]
    } else {
        let before = item_texts(items.drop_last());
        match items.last().as_str() {
            Some(text) => before.push(text),
            None => before,
        }
    }
}

/// A list of texts that may be absent. A list without texts counts as absent.
pub open spec fn text_list(value: Option<Tree>, key: Seq<char>) -> Option<Seq<Seq<char>>> {
    match value {
        Some(v) => match array_member(v, key) {
            Some(items) => if item_texts(items).len() == 0 {
                None
            } else {
                Some(item_texts(items))
            },
            None => None,
        },
        None => None,
    }
}

/// Whether a model reasons: where it lists efforts it does; else what it says
/// of thinking holds, and else what it says of adaptive thinking.
pub open spec fn reasons(supports: Option<Tree>) -> Option<bool> {
    if text_list(supports, "reasoning_effort"@) is Some {
        Some(true)
    } else if flag(supports, "thinking"@) is Some {
        flag(supports, "thinking"@)
    } else {
        flag(supports, "adaptive_thinking"@)
    }
}

/// What an item of the catalog says of its model.
pub open spec fn facts_of(item: Tree) -> ModelFacts {
    let capabilities = item.get("capabilities"@);
    let limits = inner(capabilities, "limits"@);
    let supports = inner(capabilities, "supports"@);
    ModelFacts {
        context_window_tokens: count(limits, "max_context_window_tokens"@),
        max_output_tokens: count(limits, "max_output_tokens"@),
        family: match capabilities {
            Some(c) => str_member(c, "family"@),
            None => None,
        },
        supported_endpoints: text_list(Some(item), "supported_endpoints"@),
        vision: flag(supports, "vision"@),
        tool_calls: flag(supports, "tool_calls"@),
        streaming: flag(supports, "streaming"@),
        structured_outputs: flag(supports, "structured_outputs"@),
        reasoning_effort: reasons(supports),
        reasoning_effort_values: text_list(supports, "reasoning_effort"@),
        version: str_member(item, "version"@),
        adaptive_thinking: flag(supports, "adaptive_thinking"@),
        thinking_budget_min: count(supports, "min_thinking_budget"@),
        thinking_budget_max: count(supports, "max_thinking_budget"@),
    }
}

/// The catalog of items. An item without a text `id` is left out, and a later
/// item replaces an earlier one with its `id`.
pub open spec fn catalog_of(items: Seq<Tree>) -> Seq<(Seq<char>, ModelFacts)>
    decreases items.len(),
{
    if items.len() == 0 {
        seq![]
    } else {
        let before = catalog_of(items.drop_last());
        match str_member(items.last(), "id"@) {
            Some(id) => inserted(before, id, facts_of(items.last())),
            None => before,
        }
    }
}

/// The names and facts of entries.
pub open spec fn entry_facts(entries: Seq<(Seq<char>, ModelMetadata)>) -> Seq<
    (Seq<char>, ModelFacts),
> {
    Seq::new(entries.len(), |i: int| (entries[i].0, entries[i].1@))
}

/// The catalog of a reply, or the complaint about it.
pub open spec fn catalog(reply: Result<Tree, Seq<char>>) -> Result<
    Seq<(Seq<char>, ModelFacts)>,
    Seq<char>,
> {
    match reply {
        Err(message) => Err("models response: "@ + message),
        Ok(json) => match array_member(json, "data"@) {
            Some(items) => Ok(catalog_of(items)),
            None => Err("models response missing `data` array"@),
        },
    }
}

// ---------------------------------------------------------------------------
// Reading
// ---------------------------------------------------------------------------

/// Plans the request for the catalog.
pub fn plan_list_models(token: &CopilotToken, identity: &EditorIdentity) -> (out: Outgoing<()>)
    ensures
        out.route() == (Route {
            url: without_trailing_slashes(token.api_base@) + "/models"@,
            bearer: Some(token.token@),
            headers: seq![
                ("user-agent"@, identity.user_agent@),
                ("editor-version"@, identity.editor_version@),
                ("editor-plugin-version"@, identity.editor_plugin_version@),
                ("copilot-integration-id"@, identity.copilot_integration_id@),
            ],
        }),
{
    let mut headers: Vec<(String, String)> = Vec::new();
    assert(header_texts(headers@) =~= seq![]);
    add_header(&mut headers, "user-agent", identity.user_agent.as_str());
    add_header(&mut headers, "editor-version", identity.editor_version.as_str());
    add_header(&mut headers, "editor-plugin-version", identity.editor_plugin_version.as_str());
    add_header(&mut headers, "copilot-integration-id", identity.copilot_integration_id.as_str());
    let out = Outgoing {
        url: join_url(token.api_base.as_str(), "/models"),
        bearer: Some(token.token.clone()),
        headers,
        body: (),
    };
    assert(out.route().headers =~= seq![
        ("user-agent"@, identity.user_agent@),
        ("editor-version"@, identity.editor_version@),
        ("editor-plugin-version"@, identity.editor_plugin_version@),
        ("copilot-integration-id"@, identity.copilot_integration_id@),
    ]);
    out
}

fn read_sub<'a>(value: Option<&'a Json>, key: &str) -> (found: Option<&'a Json>)
    ensures
        match found {
            Some(v) => inner(opt_view(value), key@) == Some(v@),
            None => inner(opt_view(value), key@) is None,
        },
{
    match value {
        Some(v) => v.get(key),
        None => None,
    }
}

/// The tree of an optional reference.
pub open spec fn opt_view(value: Option<&Json>) -> Option<Tree> {
    match value {
        Some(v) => Some(v@),
        None => None,
    }
}

fn read_flag(value: Option<&Json>, key: &str) -> (found: Option<bool>)
    ensures
        found == flag(opt_view(value), key@),
{
    match read_sub(value, key) {
        Some(v) => v.as_bool(),
        None => None,
    }
}

fn read_count(value: Option<&Json>, key: &str) -> (found: Option<u32>)
    ensures
        found == count(opt_view(value), key@),
{
    match value {
        Some(v) => v.u32_member(key),
        None => None,
    }
}

fn read_text(value: Option<&Json>, key: &str) -> (found: Option<String>)
    ensures
        opt_text(found) == (match opt_view(value) {
            Some(v) => str_member(v, key@),
            None => None,
        }),
{
    match value {
        Some(v) => match v.str_member(key) {
            Some(text) => Some(text.to_owned()),
            None => None,
        },
        None => None,
    }
}

fn read_text_list(value: Option<&Json>, key: &str) -> (found: Option<Vec<String>>)
    ensures
        opt_texts(found) == text_list(opt_view(value), key@),
{
    let items = match value {
        Some(v) => match v.array_member(key) {
            Some(items) => items,
            None => {
                return None;
            },
        },
        None => {
            return None;
        },
    };
    let ghost all = trees(items@);
    let mut list: Vec<String> = Vec::new();
    let mut i: usize = 0;
    assert(texts(list@) =~= seq![]);
    while i < items.len()
        invariant
            i <= items@.len(),
            all == trees(items@),
            texts(list@) == item_texts(all.take(i as int)),
        decreases items.len() - i,
    {
        proof {
            assert(all.take(i + 1).drop_last() =~= all.take(i as int));
            assert(all.take(i + 1).last() == items@[i as int]@);
        }
        if let Some(text) = items[i].as_str() {
            let ghost before = list@;
            list.push(text.to_owned());
            assert(texts(list@) =~= texts(before).push(text@));
        }
        i = i + 1;
    }
    assert(all.take(i as int) =~= all);
    assert(texts(list@).len() == list@.len());
    if list.len() == 0 {
        None
    } else {
        Some(list)
    }
}

fn read_item(item: &Json) -> (metadata: ModelMetadata)
    ensures
        metadata@ == facts_of(item@),
{
    let capabilities = item.get("capabilities");
    let limits = read_sub(capabilities, "limits");
    let supports = read_sub(capabilities, "supports");
    let reasoning_effort_values = read_text_list(supports, "reasoning_effort");
    let thinking = read_flag(supports, "thinking");
    let adaptive_thinking = read_flag(supports, "adaptive_thinking");
    let reasoning_effort = if reasoning_effort_values.is_some() {
        Some(true)
    } else if thinking.is_some() {
        thinking
    } else {
        adaptive_thinking
    };
    ModelMetadata {
        context_window_tokens: read_count(limits, "max_context_window_tokens"),
        max_output_tokens: read_count(limits, "max_output_tokens"),
        family: read_text(capabilities, "family"),
        supported_endpoints: read_text_list(Some(item), "supported_endpoints"),
        supports: ModelSupports {
            vision: read_flag(supports, "vision"),
            tool_calls: read_flag(supports, "tool_calls"),
            streaming: read_flag(supports, "streaming"),
            structured_outputs: read_flag(supports, "structured_outputs"),
            reasoning_effort,
            reasoning_effort_values,
        },
        version: read_text(Some(item), "version"),
        adaptive_thinking,
        thinking_budget_min: read_count(supports, "min_thinking_budget"),
        thinking_budget_max: read_count(supports, "max_thinking_budget"),
    }
}

proof fn lemma_facts_place(
    entries: Seq<(Seq<char>, ModelMetadata)>,
    name: Seq<char>,
    i: int,
)
    requires
        0 <= i <= entries.len(),
    ensures
        place_from(entry_facts(entries), name, i) == place_from(entries, name, i),
        i <= place_from(entries, name, i) <= entries.len(),
    decreases entries.len() - i,
{
    if i < entries.len() {
        lemma_facts_place(entries, name, i + 1);
    }
}

proof fn lemma_facts_inserted(
    entries: Seq<(Seq<char>, ModelMetadata)>,
    name: Seq<char>,
    metadata: ModelMetadata,
)
    ensures
        entry_facts(inserted(entries, name, metadata)) == inserted(
            entry_facts(entries),
            name,
            metadata@,
        ),
{
    lemma_facts_place(entries, name, 0);
    assert(stands(entry_facts(entries), name) == stands(entries, name));
    assert(entry_facts(inserted(entries, name, metadata)) =~= inserted(
        entry_facts(entries),
        name,
        metadata@,
    ));
}

/// Reads the catalog from a parsed reply.
pub fn read_catalog(reply: Result<Json, String>) -> (result: Result<
    SortedMap<ModelMetadata>,
    ProviderError,
>)
    ensures
        match catalog(
            match reply {
                Ok(json) => Ok(json@),
                Err(message) => Err(message@),
            },
        ) {
            Ok(wanted) => match result {
                Ok(map) => map.well_formed() && entry_facts(map@) == wanted,
                Err(_) => false,
            },
            Err(message) => match result {
                Err(ProviderError::Decode(text)) => text@ == message,
                _ => false,
            },
        },
{
    let json = match reply {
        Ok(json) => json,
        Err(message) => {
            return Err(ProviderError::Decode(labelled("models response: ", message.as_str())));
        },
    };
    let items = match json.array_member("data") {
        Some(items) => items,
        None => {
            return Err(ProviderError::Decode("models response missing `data` array".to_owned()));
        },
    };
    let ghost all = trees(items@);
    let mut map: SortedMap<ModelMetadata> = SortedMap::new();
    let mut i: usize = 0;
    assert(entry_facts(map@) =~= seq![]);
    while i < items.len()
        invariant
            i <= items@.len(),
            all == trees(items@),
            map.well_formed(),
            entry_facts(map@) == catalog_of(all.take(i as int)),
        decreases items.len() - i,
    {
        proof {
            assert(all.take(i + 1).drop_last() =~= all.take(i as int));
            assert(all.take(i + 1).last() == items@[i as int]@);
        }
        let item = &items[i];
        if let Some(id) = item.str_member("id") {
            let metadata = read_item(item);
            proof {
                lemma_facts_inserted(map@, id@, metadata);
            }
            map.insert(id.to_owned(), metadata);
        }
        i = i + 1;
    }
    assert(all.take(i as int) =~= all);
    Ok(map)
}

/// Reads the catalog from the text of a reply.
pub fn parse_models_response(raw: &str) -> (result: Result<
    SortedMap<ModelMetadata>,
    ProviderError,
>)
    ensures
        match catalog(parsed_text(raw@)) {
            Ok(wanted) => match result {
                Ok(map) => map.well_formed() && entry_facts(map@) == wanted,
                Err(_) => false,
            },
            Err(message) => match result {
                Err(ProviderError::Decode(text)) => text@ == message,
                _ => false,
            },
        },
{
    read_catalog(Json::parse(raw))
}

} // verus!
