//! The URLs of the Generate Content API.
use vstd::prelude::*;
use vstd::string::*;

use crate::text::{join_url, without_trailing_slashes};

verus! {

/// The URL of a model's method.
pub open spec fn method_url(base: Seq<char>, model: Seq<char>, method: Seq<char>) -> Seq<char> {
    without_trailing_slashes(base) + "/models/"@ + model + method
}

fn build_url(base_url: &str, model: &str, method: &str) -> (url: String)
    ensures
        url@ == method_url(base_url@, model@, method@),
{
    let mut url = join_url(base_url, "/models/");
    url.append(model);
    url.append(method);
    url
}

/// The URL for streamed responses.
pub fn streaming_url(base_url: &str, model: &str) -> (url: String)
    ensures
        url@ == method_url(base_url@, model@, ":streamGenerateContent"@),
{
    build_url(base_url, model, ":streamGenerateContent")
}

/// The URL for complete responses.
pub fn unary_url(base_url: &str, model: &str) -> (url: String)
    ensures
        url@ == method_url(base_url@, model@, ":generateContent"@),
{
    build_url(base_url, model, ":generateContent")
}

} // verus!
