//! Where the Copilot API is, and the reply that says so.
use vstd::prelude::*;
use vstd::string::*;

use crate::error::{labelled, ProviderError};
use crate::text::{join_url, same_text, without_trailing_slashes};

verus! {

/// The service addresses of a token.
#[derive(Clone, Debug, PartialEq)]
pub struct Endpoints {
    pub api: String,
}

/// The reply to a token exchange.
#[derive(Clone, Debug, PartialEq)]
pub struct TokenExchangeResponse {
    pub token: String,
    pub expires_at: i64,
    pub refresh_in: Option<i64>,
    pub endpoints: Endpoints,
}

/// The scheme of the URL that `url::Url::parse` reads from a text, or the
/// message of its error.
pub uninterp spec fn url_scheme(text: Seq<char>) -> Result<Seq<char>, Seq<char>>;

/// Calls `url::Url::parse` and then `scheme` on the URL. The outcome is a
/// function of the text.
#[verifier::external_body]
fn parse_scheme(text: &str) -> (result: Result<String, String>)
    ensures
        match result {
            Ok(scheme) => url_scheme(text@) == Ok::<Seq<char>, Seq<char>>(scheme@),
            Err(message) => url_scheme(text@) == Err::<Seq<char>, Seq<char>>(message@),
        },
{
    match url::Url::parse(text) {
        Ok(url) => Ok(url.scheme().to_owned()),
        Err(e) => Err(e.to_string()),
    }
}

/// What becomes of an API base, given its scheme: without its trailing
/// slashes where it is HTTPS, and else a complaint.
pub open spec fn checked_base(url: Seq<char>, scheme: Result<Seq<char>, Seq<char>>) -> Result<
    Seq<char>,
    Seq<char>,
> {
    match scheme {
        Err(message) => Err("invalid URL: "@ + message),
        Ok(scheme) => if scheme == "https"@ {
            Ok(without_trailing_slashes(url))
        } else {
            Err("API base must use HTTPS, got: "@ + scheme)
        },
    }
}

/// Judges an API base by its scheme.
pub fn check_api_base(url: &str, scheme: Result<String, String>) -> (result: Result<
    String,
    ProviderError,
>)
    ensures
        match checked_base(
            url@,
            match scheme {
                Ok(s) => Ok(s@),
                Err(e) => Err(e@),
            },
        ) {
            Ok(base) => match result {
                Ok(text) => text@ == base,
                Err(_) => false,
            },
            Err(message) => match result {
                Err(ProviderError::Encode(text)) => text@ == message,
                _ => false,
            },
        },
{
    match scheme {
        Err(message) => Err(ProviderError::Encode(labelled("invalid URL: ", message.as_str()))),
        Ok(scheme) => if same_text(scheme.as_str(), "https") {
            let base = join_url(url, "");
            proof {
                reveal_strlit("");
                assert(without_trailing_slashes(url@) + ""@ =~= without_trailing_slashes(url@));
            }
            Ok(base)
        } else {
            Err(
                ProviderError::Encode(
                    labelled("API base must use HTTPS, got: ", scheme.as_str()),
                ),
            )
        },
    }
}

/// Checks that an API base is an HTTPS URL, and gives it without trailing
/// slashes.
pub fn validate_api_base(url: &str) -> (result: Result<String, ProviderError>)
    ensures
        match checked_base(url@, url_scheme(url@)) {
            Ok(base) => match result {
                Ok(text) => text@ == base,
                Err(_) => false,
            },
            Err(message) => match result {
                Err(ProviderError::Encode(text)) => text@ == message,
                _ => false,
            },
        },
{
    check_api_base(url, parse_scheme(url))
}

} // verus!
