//! The credentials that a login leaves behind.
use vstd::prelude::*;

verus! {

/// A GitHub OAuth token and when it was obtained.
#[derive(Clone, Debug, PartialEq)]
pub struct StoredCredentials {
    pub github_oauth_token: String,
    pub created_at_unix: i64,
}

} // verus!
