//! What every HTTP provider has in common: its settings, the requests it
//! plans, and what it makes of a reply.
use vstd::prelude::*;
use vstd::string::*;

use crate::error::{ProviderCapabilities, ProviderError};
use crate::headers::{configure, configured, header_texts};
use crate::json::{array_member, str_member, trees, Json, Tree};
use crate::sorted_map::{
    found, in_order, inserted, inserted_value_is_found, insertion_keeps_other_names,
    insertion_keeps_the_order, SortedMap,
};
use crate::text::{join_url, without_trailing_slashes};

verus! {

// ---------------------------------------------------------------------------
// Settings
// ---------------------------------------------------------------------------

/// How a provider reaches its upstream.
#[derive(Clone, Debug, PartialEq)]
pub struct UpstreamSettings {
    pub name: String,
    pub base_url: String,
    pub api_key: String,
    pub default_headers: Vec<(String, String)>,
    pub timeout_secs: u64,
    pub capabilities: ProviderCapabilities,
}

impl UpstreamSettings {
    /// Checks and takes settings. A configured header that is none is an
    /// error.
    pub fn new(
        name: &str,
        base_url: &str,
        api_key: &str,
        default_headers: &Vec<(String, String)>,
        timeout_secs: u64,
        capabilities: ProviderCapabilities,
    ) -> (result: Result<UpstreamSettings, ProviderError>)
        ensures
            match configured(header_texts(default_headers@)) {
                Ok(headers) => match result {
                    Ok(settings) => {
                        &&& settings.name@ == name@
                        &&& settings.base_url@ == base_url@
                        &&& settings.api_key@ == api_key@
                        &&& header_texts(settings.default_headers@) == headers
                        &&& settings.timeout_secs == timeout_secs
                        &&& settings.capabilities == capabilities
                    },
                    Err(_) => false,
                },
                Err(message) => match result {
                    Err(ProviderError::Encode(text)) => text@ == message,
                    _ => false,
                },
            },
    {
        match configure(default_headers) {
            Ok(headers) => Ok(
                UpstreamSettings {
                    name: name.to_owned(),
                    base_url: base_url.to_owned(),
                    api_key: api_key.to_owned(),
                    default_headers: headers,
                    timeout_secs,
                    capabilities,
                },
            ),
            Err(error) => Err(error),
        }
    }

    /// The URL of a path below the base.
    pub fn url(&self, path: &str) -> (url: String)
        ensures
            url@ == without_trailing_slashes(self.base_url@) + path@,
    {
        join_url(self.base_url.as_str(), path)
    }
}

// ---------------------------------------------------------------------------
// Requests
// ---------------------------------------------------------------------------

/// A planned request: where it goes, what it carries in which order, and its
/// body.
#[derive(Clone, Debug, PartialEq)]
pub struct Outgoing<B> {
    pub url: String,
    pub bearer: Option<String>,
    pub headers: Vec<(String, String)>,
    pub body: B,
}

/// Where a planned request goes, and its headers.
#[verifier::ext_equal]
pub struct Route {
    pub url: Seq<char>,
    pub bearer: Option<Seq<char>>,
    pub headers: Seq<(Seq<char>, Seq<char>)>,
}

impl<B> Outgoing<B> {
    pub open spec fn route(&self) -> Route {
        Route {
            url: self.url@,
            bearer: crate::json::opt_text(self.bearer),
            headers: header_texts(self.headers@),
        }
    }
}

// ---------------------------------------------------------------------------
// Replies
// ---------------------------------------------------------------------------

/// Whether a status means success.
pub fn is_success(status: u16) -> (success: bool)
    ensures
        success == (200 <= status < 300),
{
    200 <= status && status < 300
}

/// The error of a reply without success. A body that could not be read is
/// marked as such.
pub fn upstream_failure(status: u16, body: Option<String>) -> (error: ProviderError)
    ensures
        match error {
            ProviderError::Upstream { status: s, body: text } => s == status && text@ == (
            match body {
                Some(b) => b@,
                None => "<unreadable>"@,
            }),
            _ => false,
        },
{
    let body = match body {
        Some(text) => text,
        None => "<unreadable>".to_owned(),
    };
    ProviderError::Upstream { status, body }
}

/// The content type of a proxied reply: what it says, or else an event stream.
pub fn proxied_content_type(content_type: Option<String>) -> (text: String)
    ensures
        text@ == (match content_type {
            Some(t) => t@,
            None => "text/event-stream"@,
        }),
{
    match content_type {
        Some(text) => text,
        None => "text/event-stream".to_owned(),
    }
}

/// The names of listed models, each once and in order. Items without a text
/// `id` are left out.
pub open spec fn model_names(items: Seq<Tree>) -> Seq<(Seq<char>, ())>
    decreases items.len(),
{
    if items.len() == 0 {
        seq![]
    } else {
        let before = model_names(items.drop_last());
        match str_member(items.last(), "id"@) {
            Some(id) => inserted(before, id, ()),
            None => before,
        }
    }
}

/// The names that a model listing holds.
pub open spec fn listed_names(listing: Tree) -> Seq<(Seq<char>, ())> {
    match array_member(listing, "data"@) {
        Some(items) => model_names(items),
        None => seq![],
    }
}

/// Reads a model listing. A listing without names says nothing.
pub fn discovered_models(listing: &Json) -> (models: Option<SortedMap<()>>)
    ensures
        match models {
            Some(map) => map.well_formed() && map@ == listed_names(listing@) && map@.len() > 0,
            None => listed_names(listing@).len() == 0,
        },
{
    let mut map: SortedMap<()> = SortedMap::new();
    if let Some(items) = listing.array_member("data") {
        let ghost all = trees(items@);
        let mut i: usize = 0;
        while i < items.len()
            invariant
                i <= items@.len(),
                all == trees(items@),
                map.well_formed(),
                map@ == model_names(all.take(i as int)),
            decreases items.len() - i,
        {
            proof {
                assert(all.take(i + 1).drop_last() =~= all.take(i as int));
                assert(all.take(i + 1).last() == items@[i as int]@);
            }
            if let Some(id) = items[i].str_member("id") {
                map.insert(id.to_owned(), ());
            }
            i = i + 1;
        }
        assert(all.take(i as int) =~= all);
    }
    if map.is_empty() {
        None
    } else {
        Some(map)
    }
}

/// Reads the reply to a request for the models. One without success says
/// nothing; one that is no JSON is an error.
pub fn read_listing(status: u16, reply: Result<Json, String>) -> (result: Result<
    Option<SortedMap<()>>,
    ProviderError,
>)
    ensures
        if !(200 <= status < 300) {
            result == Ok::<Option<SortedMap<()>>, ProviderError>(None)
        } else {
            match reply {
                Err(message) => match result {
                    Err(ProviderError::Decode(text)) => text@ == message@,
                    _ => false,
                },
                Ok(listing) => match result {
                    Ok(Some(map)) => map.well_formed() && map@ == listed_names(listing@)
                        && map@.len() > 0,
                    Ok(None) => listed_names(listing@).len() == 0,
                    Err(_) => false,
                },
            }
        },
{
    if !is_success(status) {
        return Ok(None);
    }
    match reply {
        Ok(listing) => Ok(discovered_models(&listing)),
        Err(message) => Err(ProviderError::Decode(message)),
    }
}

/// A listing names exactly the models whose items have that `id`.
pub proof fn listing_names_every_model(items: Seq<Tree>, id: Seq<char>)
    ensures
        in_order(model_names(items)),
        found(model_names(items), id) is Some <==> exists|i: int|
            0 <= i < items.len() && str_member(#[trigger] items[i], "id"@) == Some(id),
    decreases items.len(),
{
    if items.len() > 0 {
        let rest = items.drop_last();
        let before = model_names(rest);
        listing_names_every_model(rest, id);
        if let Some(last) = str_member(items.last(), "id"@) {
            insertion_keeps_the_order(before, last, ());
            if last == id {
                inserted_value_is_found(before, last, ());
                assert(str_member(items[items.len() - 1], "id"@) == Some(id));
            } else {
                insertion_keeps_other_names(before, last, (), id);
            }
        }
        if exists|i: int| 0 <= i < rest.len() && str_member(#[trigger] rest[i], "id"@) == Some(id) {
            let i = choose|i: int|
                0 <= i < rest.len() && str_member(#[trigger] rest[i], "id"@) == Some(id);
            assert(items[i] == rest[i]);
        }
        if exists|i: int|
            0 <= i < items.len() && str_member(#[trigger] items[i], "id"@) == Some(id) {
            let i = choose|i: int|
                0 <= i < items.len() && str_member(#[trigger] items[i], "id"@) == Some(id);
            if i < rest.len() {
                assert(rest[i] == items[i]);
            }
        }
    } else {
        assert(model_names(items) =~= seq![]);
    }
}

} // verus!
