//! The GitHub device flow: what its replies mean.
use vstd::prelude::*;
use vstd::string::*;

use crate::error::{labelled, ProviderError};
use crate::json::{str_member, str_member_or, u64_member, Json, Tree};
use crate::text::same_text;

verus! {

/// How a login ended.
#[derive(Clone, Debug, PartialEq)]
pub enum DeviceFlowOutcome<P> {
    Success { path: P },
    Declined,
}

/// What the user has to do, and how to ask whether it is done.
#[derive(Clone, Debug, PartialEq)]
pub struct DeviceGrant {
    pub device_code: String,
    pub user_code: String,
    pub verification_uri: String,
    pub interval_secs: u64,
}

impl DeviceGrant {
    /// Reads the reply to a request for codes. The device code is needed; the
    /// rest has defaults.
    pub fn from_reply(reply: &Json) -> (result: Result<DeviceGrant, ProviderError>)
        ensures
            match str_member(reply@, "device_code"@) {
                Some(code) => match result {
                    Ok(grant) => {
                        &&& grant.device_code@ == code
                        &&& grant.user_code@ == str_member_or(reply@, "user_code"@, "???"@)
                        &&& grant.verification_uri@ == str_member_or(
                            reply@,
                            "verification_uri"@,
                            "https://github.com/login/device"@,
                        )
                        &&& grant.interval_secs == (match u64_member(reply@, "interval"@) {
                            Some(n) => n,
                            None => 5,
                        })
                    },
                    Err(_) => false,
                },
                None => match result {
                    Err(ProviderError::Decode(text)) => text@ == "missing device_code"@,
                    _ => false,
                },
            },
    {
        let device_code = match reply.str_member("device_code") {
            Some(code) => code.to_owned(),
            None => {
                return Err(ProviderError::Decode("missing device_code".to_owned()));
            },
        };
        let interval_secs = match reply.u64_member("interval") {
            Some(n) => n,
            None => 5,
        };
        Ok(
            DeviceGrant {
                device_code,
                user_code: reply.str_member_or("user_code", "???"),
                verification_uri: reply.str_member_or(
                    "verification_uri",
                    "https://github.com/login/device",
                ),
                interval_secs,
            },
        )
    }
}

/// What to do after a poll.
#[derive(Clone, Debug, PartialEq)]
pub enum PollStep {
    /// The user agreed; here is the token.
    Authorized(String),
    /// Ask again later.
    Wait,
    /// The user refused.
    Declined,
    /// The flow is over.
    Failed(ProviderError),
}

/// What a reply to a poll says.
pub enum PollReply {
    Token(Seq<char>),
    Pending,
    Denied,
    Refused(Seq<char>),
}

/// Reads a reply to a poll. A token wins over an error; a reply with neither
/// is as good as a pending one.
pub open spec fn poll_reply(reply: Tree) -> PollReply {
    match str_member(reply, "access_token"@) {
        Some(token) => PollReply::Token(token),
        None => match str_member(reply, "error"@) {
            Some(error) => if error == "authorization_pending"@ || error == "slow_down"@ {
                PollReply::Pending
            } else if error == "access_denied"@ {
                PollReply::Denied
            } else {
                PollReply::Refused(error)
            },
            None => PollReply::Pending,
        },
    }
}

/// Decides what to do after a poll.
pub fn poll_step(reply: &Json) -> (step: PollStep)
    ensures
        match poll_reply(reply@) {
            PollReply::Token(token) => match step {
                PollStep::Authorized(text) => text@ == token,
                _ => false,
            },
            PollReply::Pending => step == PollStep::Wait,
            PollReply::Denied => step == PollStep::Declined,
            PollReply::Refused(error) => match step {
                PollStep::Failed(ProviderError::Upstream { status, body }) => status == 400 && body@
                    == "device flow error: "@ + error,
                _ => false,
            },
        },
{
    if let Some(token) = reply.str_member("access_token") {
        return PollStep::Authorized(token.to_owned());
    }
    match reply.str_member("error") {
        Some(error) => if same_text(error, "authorization_pending") || same_text(
            error,
            "slow_down",
        ) {
            PollStep::Wait
        } else if same_text(error, "access_denied") {
            PollStep::Declined
        } else {
            PollStep::Failed(
                ProviderError::Upstream {
                    status: 400,
                    body: labelled("device flow error: ", error),
                },
            )
        },
        None => PollStep::Wait,
    }
}

} // verus!
