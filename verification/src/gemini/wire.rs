//! The messages of the Generate Content API, and the JSON form of those that
//! are sent.
use vstd::prelude::*;

use crate::json::{
    append, copied, no_members, no_values, opt_text, opt_tree, optional_text, put,
    put_optional, text_tree, trees, with_member, with_optional, Json, Tree,
};
use crate::text::signed_decimal;

verus! {

// ---------------------------------------------------------------------------
// Requests
// ---------------------------------------------------------------------------

#[derive(Clone, Debug, PartialEq)]
pub struct GenerateContentRequest {
    pub contents: Vec<Content>,
    pub system_instruction: Option<Content>,
    pub tools: Option<Vec<Tool>>,
    pub generation_config: Option<GenerationConfig>,
    pub safety_settings: Option<Vec<SafetySetting>>,
}

/// A turn of the conversation, in requests and responses.
#[derive(Clone, Debug, PartialEq)]
pub struct Content {
    pub role: String,
    pub parts: Vec<Part>,
}

/// One part of a turn.
#[derive(Clone, Debug, PartialEq)]
pub struct Part {
    pub text: Option<String>,
    pub thought: Option<bool>,
    pub inline_data: Option<InlineData>,
    pub file_data: Option<FileData>,
    pub function_call: Option<FunctionCall>,
    pub function_response: Option<FunctionResponse>,
}

/// Binary data, base64-encoded.
#[derive(Clone, Debug, PartialEq)]
pub struct InlineData {
    pub mime_type: String,
    pub data: String,
}

/// A file by reference.
#[derive(Clone, Debug, PartialEq)]
pub struct FileData {
    pub mime_type: String,
    pub file_uri: String,
}

#[derive(Clone, Debug, PartialEq)]
pub struct FunctionCall {
    pub name: String,
    pub args: Option<Json>,
    pub id: Option<String>,
}

#[derive(Clone, Debug, PartialEq)]
pub struct FunctionResponse {
    pub name: String,
    pub response: Json,
    pub id: Option<String>,
}

#[derive(Clone, Debug, PartialEq)]
pub struct Tool {
    pub function_declarations: Vec<FunctionDeclaration>,
}

#[derive(Clone, Debug, PartialEq)]
pub struct FunctionDeclaration {
    pub name: String,
    pub description: Option<String>,
    pub parameters: Option<Json>,
}

/// Generation parameters. The fractional ones are held as JSON numbers, or as
/// `null` where the caller's value has no JSON form.
#[derive(Clone, Debug, PartialEq)]
pub struct GenerationConfig {
    pub temperature: Option<Json>,
    pub top_p: Option<Json>,
    pub top_k: Option<i64>,
    pub max_output_tokens: Option<i64>,
    pub stop_sequences: Option<Vec<String>>,
    pub response_mime_type: Option<String>,
    pub response_schema: Option<Json>,
    pub thinking_config: Option<ThinkingConfig>,
}

#[derive(Clone, Copy, Debug, PartialEq, Eq, Structural)]
pub struct ThinkingConfig {
    pub thinking_budget: Option<i64>,
    pub include_thoughts: Option<bool>,
}

#[derive(Clone, Debug, PartialEq)]
pub struct SafetySetting {
    pub category: String,
    pub threshold: String,
}

// ---------------------------------------------------------------------------
// Responses
// ---------------------------------------------------------------------------

#[derive(Clone, Debug, PartialEq)]
pub struct GenerateContentResponse {
    pub candidates: Vec<Candidate>,
    pub prompt_feedback: Option<PromptFeedback>,
    pub usage_metadata: Option<UsageMetadata>,
}

#[derive(Clone, Debug, PartialEq)]
pub struct Candidate {
    pub content: Content,
    pub finish_reason: Option<String>,
    pub safety_ratings: Vec<SafetyRating>,
    pub index: Option<i64>,
    pub citation_metadata: Option<Json>,
}

#[derive(Clone, Debug, PartialEq)]
pub struct SafetyRating {
    pub category: String,
    pub probability: String,
    pub blocked: Option<bool>,
}

#[derive(Clone, Debug, PartialEq)]
pub struct PromptFeedback {
    pub block_reason: Option<String>,
    pub safety_ratings: Vec<SafetyRating>,
}

#[derive(Clone, Copy, Debug, PartialEq, Eq, Structural)]
pub struct UsageMetadata {
    pub prompt_token_count: Option<i64>,
    pub candidates_token_count: Option<i64>,
    pub total_token_count: Option<i64>,
    pub thoughts_token_count: Option<i64>,
}

// ---------------------------------------------------------------------------
// Model
// ---------------------------------------------------------------------------

/// The model of `Part`.
#[verifier::ext_equal]
pub struct PartModel {
    pub text: Option<Seq<char>>,
    pub thought: Option<bool>,
    pub inline_data: Option<(Seq<char>, Seq<char>)>,
    pub file_data: Option<(Seq<char>, Seq<char>)>,
    pub function_call: Option<(Seq<char>, Option<Tree>, Option<Seq<char>>)>,
    pub function_response: Option<(Seq<char>, Tree, Option<Seq<char>>)>,
}

/// A part that holds nothing.
pub open spec fn no_part() -> PartModel {
    PartModel {
        text: None,
        thought: None,
        inline_data: None,
        file_data: None,
        function_call: None,
        function_response: None,
    }
}

/// The model of `Content`.
#[verifier::ext_equal]
pub struct ContentModel {
    pub role: Seq<char>,
    pub parts: Seq<PartModel>,
}

/// The model of `FunctionDeclaration`.
#[verifier::ext_equal]
pub struct DeclarationModel {
    pub name: Seq<char>,
    pub description: Option<Seq<char>>,
    pub parameters: Option<Tree>,
}

/// The model of `GenerationConfig`.
#[verifier::ext_equal]
pub struct ConfigModel {
    pub temperature: Option<Tree>,
    pub top_p: Option<Tree>,
    pub top_k: Option<i64>,
    pub max_output_tokens: Option<i64>,
    pub stop_sequences: Option<Seq<Seq<char>>>,
    pub response_mime_type: Option<Seq<char>>,
    pub response_schema: Option<Tree>,
    pub thinking_config: Option<ThinkingConfig>,
}

/// The model of `GenerateContentRequest`.
#[verifier::ext_equal]
pub struct RequestModel {
    pub contents: Seq<ContentModel>,
    pub system_instruction: Option<ContentModel>,
    pub tools: Option<Seq<Seq<DeclarationModel>>>,
    pub generation_config: Option<ConfigModel>,
    pub safety_settings: Option<Seq<(Seq<char>, Seq<char>)>>,
}

impl Part {
    pub open spec fn view(&self) -> PartModel {
        PartModel {
            text: opt_text(self.text),
            thought: self.thought,
            inline_data: match self.inline_data {
                Some(d) => Some((d.mime_type@, d.data@)),
                None => None,
            },
            file_data: match self.file_data {
                Some(d) => Some((d.mime_type@, d.file_uri@)),
                None => None,
            },
            function_call: match self.function_call {
                Some(c) => Some((c.name@, opt_tree(c.args), opt_text(c.id))),
                None => None,
            },
            function_response: match self.function_response {
                Some(r) => Some((r.name@, r.response@, opt_text(r.id))),
                None => None,
            },
        }
    }
}

/// The models of a sequence of parts.
pub open spec fn part_models(parts: Seq<Part>) -> Seq<PartModel> {
    Seq::new(parts.len(), |i: int| parts[i]@)
}

impl Content {
    pub open spec fn view(&self) -> ContentModel {
        ContentModel { role: self.role@, parts: part_models(self.parts@) }
    }
}

/// The models of a sequence of turns.
pub open spec fn content_models(contents: Seq<Content>) -> Seq<ContentModel> {
    Seq::new(contents.len(), |i: int| contents[i]@)
}

impl FunctionDeclaration {
    pub open spec fn view(&self) -> DeclarationModel {
        DeclarationModel {
            name: self.name@,
            description: opt_text(self.description),
            parameters: opt_tree(self.parameters),
        }
    }
}

impl Tool {
    pub open spec fn view(&self) -> Seq<DeclarationModel> {
        Seq::new(self.function_declarations@.len(), |i: int| self.function_declarations@[i]@)
    }
}

impl GenerationConfig {
    pub open spec fn view(&self) -> ConfigModel {
        ConfigModel {
            temperature: opt_tree(self.temperature),
            top_p: opt_tree(self.top_p),
            top_k: self.top_k,
            max_output_tokens: self.max_output_tokens,
            stop_sequences: match self.stop_sequences {
                Some(stops) => Some(crate::text::texts(stops@)),
                None => None,
            },
            response_mime_type: opt_text(self.response_mime_type),
            response_schema: opt_tree(self.response_schema),
            thinking_config: self.thinking_config,
        }
    }
}

/// The models of optional tools.
pub open spec fn tool_models(tools: Option<Vec<Tool>>) -> Option<Seq<Seq<DeclarationModel>>> {
    match tools {
        Some(tools) => Some(Seq::new(tools@.len(), |i: int| tools@[i]@)),
        None => None,
    }
}

/// The model of an optional turn.
pub open spec fn opt_content(content: Option<Content>) -> Option<ContentModel> {
    match content {
        Some(c) => Some(c@),
        None => None,
    }
}

/// The model of optional generation parameters.
pub open spec fn opt_config(config: Option<GenerationConfig>) -> Option<ConfigModel> {
    match config {
        Some(c) => Some(c@),
        None => None,
    }
}

/// The models of optional safety settings.
pub open spec fn setting_models(settings: Option<Vec<SafetySetting>>) -> Option<
    Seq<(Seq<char>, Seq<char>)>,
> {
    match settings {
        Some(settings) => Some(
            Seq::new(
                settings@.len(),
                |i: int| (settings@[i].category@, settings@[i].threshold@),
            ),
        ),
        None => None,
    }
}

impl GenerateContentRequest {
    pub open spec fn view(&self) -> RequestModel {
        RequestModel {
            contents: content_models(self.contents@),
            system_instruction: opt_content(self.system_instruction),
            tools: tool_models(self.tools),
            generation_config: opt_config(self.generation_config),
            safety_settings: setting_models(self.safety_settings),
        }
    }
}

// ---------------------------------------------------------------------------
// JSON forms
// ---------------------------------------------------------------------------

pub open spec fn bool_tree(b: Option<bool>) -> Option<Tree> {
    match b {
        Some(b) => Some(Tree::Bool(b)),
        None => None,
    }
}

pub open spec fn int_tree(n: Option<i64>) -> Option<Tree> {
    match n {
        Some(n) => Some(Tree::Number(signed_decimal(n as int))),
        None => None,
    }
}

/// The JSON form of a part. What it lacks is left out.
pub open spec fn part_tree(p: PartModel) -> Tree {
    let m0 = with_optional(seq![], "text"@, text_tree(p.text));
    let m1 = with_optional(m0, "thought"@, bool_tree(p.thought));
    let m2 = with_optional(
        m1,
        "inlineData"@,
        match p.inline_data {
            Some((mime_type, data)) => Some(
                Tree::Object(
                    with_member(
                        with_member(seq![], "mimeType"@, Tree::Text(mime_type)),
                        "data"@,
                        Tree::Text(data),
                    ),
                ),
            ),
            None => None,
        },
    );
    let m3 = with_optional(
        m2,
        "fileData"@,
        match p.file_data {
            Some((mime_type, file_uri)) => Some(
                Tree::Object(
                    with_member(
                        with_member(seq![], "mimeType"@, Tree::Text(mime_type)),
                        "fileUri"@,
                        Tree::Text(file_uri),
                    ),
                ),
            ),
            None => None,
        },
    );
    let m4 = with_optional(
        m3,
        "functionCall"@,
        match p.function_call {
            Some((name, args, id)) => Some(
                Tree::Object(
                    with_optional(
                        with_optional(
                            with_member(seq![], "name"@, Tree::Text(name)),
                            "args"@,
                            args,
                        ),
                        "id"@,
                        text_tree(id),
                    ),
                ),
            ),
            None => None,
        },
    );
    Tree::Object(
        with_optional(
            m4,
            "functionResponse"@,
            match p.function_response {
                Some((name, response, id)) => Some(
                    Tree::Object(
                        with_optional(
                            with_member(
                                with_member(seq![], "name"@, Tree::Text(name)),
                                "response"@,
                                response,
                            ),
                            "id"@,
                            text_tree(id),
                        ),
                    ),
                ),
                None => None,
            },
        ),
    )
}

/// The JSON form of a turn.
pub open spec fn content_tree(c: ContentModel) -> Tree {
    Tree::Object(
        with_member(
            with_member(seq![], "role"@, Tree::Text(c.role)),
            "parts"@,
            Tree::Array(Seq::new(c.parts.len(), |i: int| part_tree(c.parts[i]))),
        ),
    )
}

/// The JSON form of a function declaration.
pub open spec fn declaration_tree(d: DeclarationModel) -> Tree {
    Tree::Object(
        with_optional(
            with_optional(
                with_member(seq![], "name"@, Tree::Text(d.name)),
                "description"@,
                text_tree(d.description),
            ),
            "parameters"@,
            d.parameters,
        ),
    )
}

/// The JSON form of a tool.
pub open spec fn tool_tree(declarations: Seq<DeclarationModel>) -> Tree {
    Tree::Object(
        with_member(
            seq![],
            "functionDeclarations"@,
            Tree::Array(
                Seq::new(declarations.len(), |i: int| declaration_tree(declarations[i])),
            ),
        ),
    )
}

/// The JSON form of a thinking configuration.
pub open spec fn thinking_tree(t: ThinkingConfig) -> Tree {
    Tree::Object(
        with_optional(
            with_optional(seq![], "thinkingBudget"@, int_tree(t.thinking_budget)),
            "includeThoughts"@,
            bool_tree(t.include_thoughts),
        ),
    )
}

/// The JSON form of generation parameters. What is not set is left out.
pub open spec fn config_tree(c: ConfigModel) -> Tree {
    let m0 = with_optional(seq![], "temperature"@, c.temperature);
    let m1 = with_optional(m0, "topP"@, c.top_p);
    let m2 = with_optional(m1, "topK"@, int_tree(c.top_k));
    let m3 = with_optional(m2, "maxOutputTokens"@, int_tree(c.max_output_tokens));
    let m4 = with_optional(
        m3,
        "stopSequences"@,
        match c.stop_sequences {
            Some(stops) => Some(
                Tree::Array(Seq::new(stops.len(), |i: int| Tree::Text(stops[i]))),
            ),
            None => None,
        },
    );
    let m5 = with_optional(m4, "responseMimeType"@, text_tree(c.response_mime_type));
    let m6 = with_optional(m5, "responseSchema"@, c.response_schema);
    Tree::Object(
        with_optional(
            m6,
            "thinkingConfig"@,
            match c.thinking_config {
                Some(t) => Some(thinking_tree(t)),
                None => None,
            },
        ),
    )
}

/// The JSON form of a safety setting.
pub open spec fn setting_tree(setting: (Seq<char>, Seq<char>)) -> Tree {
    Tree::Object(
        with_member(
            with_member(seq![], "category"@, Tree::Text(setting.0)),
            "threshold"@,
            Tree::Text(setting.1),
        ),
    )
}

/// The JSON form of a request.
pub open spec fn request_tree(r: RequestModel) -> Tree {
    let m0 = with_member(
        seq![],
        "contents"@,
        Tree::Array(Seq::new(r.contents.len(), |i: int| content_tree(r.contents[i]))),
    );
    let m1 = with_optional(
        m0,
        "systemInstruction"@,
        match r.system_instruction {
            Some(c) => Some(content_tree(c)),
            None => None,
        },
    );
    let m2 = with_optional(
        m1,
        "tools"@,
        match r.tools {
            Some(tools) => Some(
                Tree::Array(Seq::new(tools.len(), |i: int| tool_tree(tools[i]))),
            ),
            None => None,
        },
    );
    let m3 = with_optional(
        m2,
        "generationConfig"@,
        match r.generation_config {
            Some(c) => Some(config_tree(c)),
            None => None,
        },
    );
    Tree::Object(
        with_optional(
            m3,
            "safetySettings"@,
            match r.safety_settings {
                Some(settings) => Some(
                    Tree::Array(Seq::new(settings.len(), |i: int| setting_tree(settings[i]))),
                ),
                None => None,
            },
        ),
    )
}

// ---------------------------------------------------------------------------
// Operations
// ---------------------------------------------------------------------------

impl Default for Part {
    fn default() -> (part: Part)
        ensures
            part@ == no_part(),
    {
        Part {
            text: None,
            thought: None,
            inline_data: None,
            file_data: None,
            function_call: None,
            function_response: None,
        }
    }
}

fn optional_bool(b: Option<bool>) -> (value: Option<Json>)
    ensures
        opt_tree(value) == bool_tree(b),
{
    match b {
        Some(b) => Some(Json::Bool(b)),
        None => None,
    }
}

fn optional_int(n: Option<i64>) -> (value: Option<Json>)
    ensures
        opt_tree(value) == int_tree(n),
{
    match n {
        Some(n) => Some(Json::signed(n)),
        None => None,
    }
}

impl Part {
    /// The JSON form of this part.
    pub fn to_json(&self) -> (json: Json)
        ensures
            json@ == part_tree(self@),
    {
        let mut m = no_members();
        put_optional(&mut m, "text", optional_text(&self.text));
        put_optional(&mut m, "thought", optional_bool(self.thought));
        let inline = match &self.inline_data {
            Some(d) => {
                let mut e = no_members();
                put(&mut e, "mimeType", Json::text(d.mime_type.as_str()));
                put(&mut e, "data", Json::text(d.data.as_str()));
                Some(Json::Object(e))
            },
            None => None,
        };
        put_optional(&mut m, "inlineData", inline);
        let file = match &self.file_data {
            Some(d) => {
                let mut e = no_members();
                put(&mut e, "mimeType", Json::text(d.mime_type.as_str()));
                put(&mut e, "fileUri", Json::text(d.file_uri.as_str()));
                Some(Json::Object(e))
            },
            None => None,
        };
        put_optional(&mut m, "fileData", file);
        let call = match &self.function_call {
            Some(c) => {
                let mut e = no_members();
                put(&mut e, "name", Json::text(c.name.as_str()));
                put_optional(&mut e, "args", copied(&c.args));
                put_optional(&mut e, "id", optional_text(&c.id));
                Some(Json::Object(e))
            },
            None => None,
        };
        put_optional(&mut m, "functionCall", call);
        let response = match &self.function_response {
            Some(r) => {
                let mut e = no_members();
                put(&mut e, "name", Json::text(r.name.as_str()));
                put(&mut e, "response", r.response.duplicate());
                put_optional(&mut e, "id", optional_text(&r.id));
                Some(Json::Object(e))
            },
            None => None,
        };
        put_optional(&mut m, "functionResponse", response);
        Json::Object(m)
    }
}

impl Content {
    /// The JSON form of this turn.
    pub fn to_json(&self) -> (json: Json)
        ensures
            json@ == content_tree(self@),
    {
        let ghost all = Seq::new(self@.parts.len(), |i: int| part_tree(self@.parts[i]));
        let mut values = no_values();
        let mut i: usize = 0;
        assert(all.take(0) =~= seq![]);
        while i < self.parts.len()
            invariant
                i <= self.parts@.len(),
                all == Seq::new(self@.parts.len(), |i: int| part_tree(self@.parts[i])),
                trees(values@) == all.take(i as int),
            decreases self.parts.len() - i,
        {
            append(&mut values, self.parts[i].to_json());
            i = i + 1;
            assert(all.take(i as int) =~= all.take(i - 1).push(all[i - 1]));
        }
        assert(all.take(i as int) =~= all);
        let mut m = no_members();
        put(&mut m, "role", Json::text(self.role.as_str()));
        put(&mut m, "parts", Json::Array(values));
        Json::Object(m)
    }
}

impl FunctionDeclaration {
    /// The JSON form of this declaration.
    pub fn to_json(&self) -> (json: Json)
        ensures
            json@ == declaration_tree(self@),
    {
        let mut m = no_members();
        put(&mut m, "name", Json::text(self.name.as_str()));
        put_optional(&mut m, "description", optional_text(&self.description));
        put_optional(&mut m, "parameters", copied(&self.parameters));
        Json::Object(m)
    }
}

impl Tool {
    /// The JSON form of this tool.
    pub fn to_json(&self) -> (json: Json)
        ensures
            json@ == tool_tree(self@),
    {
        let ghost all = Seq::new(self@.len(), |i: int| declaration_tree(self@[i]));
        let mut values = no_values();
        let mut i: usize = 0;
        assert(all.take(0) =~= seq![]);
        while i < self.function_declarations.len()
            invariant
                i <= self.function_declarations@.len(),
                all == Seq::new(self@.len(), |i: int| declaration_tree(self@[i])),
                trees(values@) == all.take(i as int),
            decreases self.function_declarations.len() - i,
        {
            append(&mut values, self.function_declarations[i].to_json());
            i = i + 1;
            assert(all.take(i as int) =~= all.take(i - 1).push(all[i - 1]));
        }
        assert(all.take(i as int) =~= all);
        let mut m = no_members();
        put(&mut m, "functionDeclarations", Json::Array(values));
        Json::Object(m)
    }
}

impl ThinkingConfig {
    /// The JSON form of this configuration.
    pub fn to_json(&self) -> (json: Json)
        ensures
            json@ == thinking_tree(*self),
    {
        let mut m = no_members();
        put_optional(&mut m, "thinkingBudget", optional_int(self.thinking_budget));
        put_optional(&mut m, "includeThoughts", optional_bool(self.include_thoughts));
        Json::Object(m)
    }
}

fn stops_to_json(stops: &Vec<String>) -> (json: Json)
    ensures
        json@ == Tree::Array(
            Seq::new(
                crate::text::texts(stops@).len(),
                |i: int| Tree::Text(crate::text::texts(stops@)[i]),
            ),
        ),
{
    let ghost texts = crate::text::texts(stops@);
    let ghost all = Seq::new(texts.len(), |i: int| Tree::Text(texts[i]));
    let mut values = no_values();
    let mut i: usize = 0;
    assert(all.take(0) =~= seq![]);
    while i < stops.len()
        invariant
            i <= stops@.len(),
            texts == crate::text::texts(stops@),
            all == Seq::new(texts.len(), |i: int| Tree::Text(texts[i])),
            trees(values@) == all.take(i as int),
        decreases stops.len() - i,
    {
        append(&mut values, Json::text(stops[i].as_str()));
        i = i + 1;
        assert(all.take(i as int) =~= all.take(i - 1).push(all[i - 1]));
    }
    assert(all.take(i as int) =~= all);
    Json::Array(values)
}

impl GenerationConfig {
    /// The JSON form of these parameters.
    pub fn to_json(&self) -> (json: Json)
        ensures
            json@ == config_tree(self@),
    {
        let mut m = no_members();
        put_optional(&mut m, "temperature", copied(&self.temperature));
        put_optional(&mut m, "topP", copied(&self.top_p));
        put_optional(&mut m, "topK", optional_int(self.top_k));
        put_optional(&mut m, "maxOutputTokens", optional_int(self.max_output_tokens));
        let stops = match &self.stop_sequences {
            Some(stops) => Some(stops_to_json(stops)),
            None => None,
        };
        put_optional(&mut m, "stopSequences", stops);
        put_optional(&mut m, "responseMimeType", optional_text(&self.response_mime_type));
        put_optional(&mut m, "responseSchema", copied(&self.response_schema));
        let thinking = match &self.thinking_config {
            Some(t) => Some(t.to_json()),
            None => None,
        };
        put_optional(&mut m, "thinkingConfig", thinking);
        Json::Object(m)
    }
}

impl SafetySetting {
    /// The JSON form of this setting.
    pub fn to_json(&self) -> (json: Json)
        ensures
            json@ == setting_tree((self.category@, self.threshold@)),
    {
        let mut m = no_members();
        put(&mut m, "category", Json::text(self.category.as_str()));
        put(&mut m, "threshold", Json::text(self.threshold.as_str()));
        Json::Object(m)
    }
}

impl SafetyRating {
    /// The JSON form of a rating. An unknown verdict is `null`.
    pub open spec fn tree(&self) -> Tree {
        Tree::Object(
            with_member(
                with_member(
                    with_member(seq![], "category"@, Tree::Text(self.category@)),
                    "probability"@,
                    Tree::Text(self.probability@),
                ),
                "blocked"@,
                match self.blocked {
                    Some(b) => Tree::Bool(b),
                    None => Tree::Null,
                },
            ),
        )
    }

    /// The JSON form of this rating.
    pub fn to_json(&self) -> (json: Json)
        ensures
            json@ == self.tree(),
    {
        let mut m = no_members();
        put(&mut m, "category", Json::text(self.category.as_str()));
        put(&mut m, "probability", Json::text(self.probability.as_str()));
        let blocked = match self.blocked {
            Some(b) => Json::Bool(b),
            None => Json::Null,
        };
        put(&mut m, "blocked", blocked);
        Json::Object(m)
    }
}

/// The JSON forms of ratings.
pub open spec fn rating_trees(ratings: Seq<SafetyRating>) -> Seq<Tree> {
    Seq::new(ratings.len(), |i: int| ratings[i].tree())
}

/// The JSON form of ratings.
pub(crate) fn ratings_to_json(ratings: &Vec<SafetyRating>) -> (value: Json)
    ensures
        value@ == Tree::Array(rating_trees(ratings@)),
{
    let ghost all = rating_trees(ratings@);
    let mut values = no_values();
    let mut i: usize = 0;
    assert(all.take(0) =~= seq![]);
    while i < ratings.len()
        invariant
            i <= ratings@.len(),
            all == rating_trees(ratings@),
            trees(values@) == all.take(i as int),
        decreases ratings.len() - i,
    {
        append(&mut values, ratings[i].to_json());
        i = i + 1;
        assert(all.take(i as int) =~= all.take(i - 1).push(all[i - 1]));
    }
    assert(all.take(i as int) =~= all);
    Json::Array(values)
}

impl PromptFeedback {
    /// The JSON form of feedback, under the names it has on the wire. A
    /// reason that was not given is `null`.
    pub open spec fn tree(&self) -> Tree {
        Tree::Object(
            with_member(
                with_member(
                    seq![],
                    "blockReason"@,
                    match self.block_reason {
                        Some(reason) => Tree::Text(reason@),
                        None => Tree::Null,
                    },
                ),
                "safetyRatings"@,
                Tree::Array(rating_trees(self.safety_ratings@)),
            ),
        )
    }

    /// The JSON form of this feedback.
    pub fn to_json(&self) -> (json: Json)
        ensures
            json@ == self.tree(),
    {
        let mut m = no_members();
        let reason = match &self.block_reason {
            Some(reason) => Json::text(reason.as_str()),
            None => Json::Null,
        };
        put(&mut m, "blockReason", reason);
        put(&mut m, "safetyRatings", ratings_to_json(&self.safety_ratings));
        Json::Object(m)
    }
}

impl GenerateContentRequest {
    fn contents_to_json(&self) -> (json: Json)
        ensures
            json@ == Tree::Array(
                Seq::new(self@.contents.len(), |i: int| content_tree(self@.contents[i])),
            ),
    {
        let ghost all = Seq::new(self@.contents.len(), |i: int| content_tree(self@.contents[i]));
        let mut values = no_values();
        let mut i: usize = 0;
        assert(all.take(0) =~= seq![]);
        while i < self.contents.len()
            invariant
                i <= self.contents@.len(),
                all == Seq::new(self@.contents.len(), |i: int| content_tree(self@.contents[i])),
                trees(values@) == all.take(i as int),
            decreases self.contents.len() - i,
        {
            append(&mut values, self.contents[i].to_json());
            i = i + 1;
            assert(all.take(i as int) =~= all.take(i - 1).push(all[i - 1]));
        }
        assert(all.take(i as int) =~= all);
        Json::Array(values)
    }

    fn tools_to_json(tools: &Vec<Tool>) -> (json: Json)
        ensures
            json@ == Tree::Array(Seq::new(tools@.len(), |i: int| tool_tree(tools@[i]@))),
    {
        let ghost all = Seq::new(tools@.len(), |i: int| tool_tree(tools@[i]@));
        let mut values = no_values();
        let mut i: usize = 0;
        assert(all.take(0) =~= seq![]);
        while i < tools.len()
            invariant
                i <= tools@.len(),
                all == Seq::new(tools@.len(), |i: int| tool_tree(tools@[i]@)),
                trees(values@) == all.take(i as int),
            decreases tools.len() - i,
        {
            append(&mut values, tools[i].to_json());
            i = i + 1;
            assert(all.take(i as int) =~= all.take(i - 1).push(all[i - 1]));
        }
        assert(all.take(i as int) =~= all);
        Json::Array(values)
    }

    fn settings_to_json(settings: &Vec<SafetySetting>) -> (json: Json)
        ensures
            json@ == Tree::Array(
                Seq::new(
                    settings@.len(),
                    |i: int| setting_tree((settings@[i].category@, settings@[i].threshold@)),
                ),
            ),
    {
        let ghost all = Seq::new(
            settings@.len(),
            |i: int| setting_tree((settings@[i].category@, settings@[i].threshold@)),
        );
        let mut values = no_values();
        let mut i: usize = 0;
        assert(all.take(0) =~= seq![]);
        while i < settings.len()
            invariant
                i <= settings@.len(),
                all == Seq::new(
                    settings@.len(),
                    |i: int| setting_tree((settings@[i].category@, settings@[i].threshold@)),
                ),
                trees(values@) == all.take(i as int),
            decreases settings.len() - i,
        {
            append(&mut values, settings[i].to_json());
            i = i + 1;
            assert(all.take(i as int) =~= all.take(i - 1).push(all[i - 1]));
        }
        assert(all.take(i as int) =~= all);
        Json::Array(values)
    }

    /// The JSON form of this request.
    pub fn to_json(&self) -> (json: Json)
        ensures
            json@ == request_tree(self@),
    {
        let mut m = no_members();
        put(&mut m, "contents", self.contents_to_json());
        let system = match &self.system_instruction {
            Some(c) => Some(c.to_json()),
            None => None,
        };
        put_optional(&mut m, "systemInstruction", system);
        let tools = match &self.tools {
            Some(tools) => {
                let value = GenerateContentRequest::tools_to_json(tools);
                proof {
                    let models = self@.tools->0;
                    assert(Seq::new(tools@.len(), |i: int| tool_tree(tools@[i]@)) =~= Seq::new(
                        models.len(),
                        |i: int| tool_tree(models[i]),
                    ));
                }
                Some(value)
            },
            None => None,
        };
        put_optional(&mut m, "tools", tools);
        let config = match &self.generation_config {
            Some(c) => Some(c.to_json()),
            None => None,
        };
        put_optional(&mut m, "generationConfig", config);
        let settings = match &self.safety_settings {
            Some(settings) => {
                let value = GenerateContentRequest::settings_to_json(settings);
                proof {
                    let models = self@.safety_settings->0;
                    assert(Seq::new(
                        settings@.len(),
                        |i: int| setting_tree((settings@[i].category@, settings@[i].threshold@)),
                    ) =~= Seq::new(models.len(), |i: int| setting_tree(models[i])));
                }
                Some(value)
            },
            None => None,
        };
        put_optional(&mut m, "safetySettings", settings);
        Json::Object(m)
    }
}

} // verus!
