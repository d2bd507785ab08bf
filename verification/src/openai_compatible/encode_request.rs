//! Builds a chat-completions body whose effort is the caller's, or else the
//! route's.
use vstd::prelude::*;

use crate::canonical::{BackendTarget, CanonicalRequest, ReasoningEffort};
use crate::json::{Json, Tree};
use crate::oai_chat_wire::canonical_to_chat::{body_tree, build_body};

verus! {

/// The effort that the request asks for, or else the route's default.
pub open spec fn resolved_effort(
    request: CanonicalRequest,
    target: BackendTarget,
) -> Option<ReasoningEffort> {
    match request.generation.reasoning {
        Some(options) => match options.effort {
            Some(effort) => Some(effort),
            None => target.policy.default_reasoning_effort,
        },
        None => target.policy.default_reasoning_effort,
    }
}

/// The body of a chat-completions request. The effort is sent under its own
/// name, and images held as raw bytes are left out.
pub open spec fn encoded_request(request: CanonicalRequest, target: BackendTarget) -> Tree {
    body_tree(
        request,
        target.model@,
        match resolved_effort(request, target) {
            Some(effort) => Some(effort.name()),
            None => None,
        },
        false,
    )
}

/// Picks the effort.
pub fn resolve_reasoning_effort(
    req: &CanonicalRequest,
    target: &BackendTarget,
) -> (effort: Option<ReasoningEffort>)
    ensures
        effort == resolved_effort(*req, *target),
{
    match req.generation.reasoning {
        Some(options) => match options.effort {
            Some(effort) => Some(effort),
            None => target.policy.default_reasoning_effort,
        },
        None => target.policy.default_reasoning_effort,
    }
}

/// Builds the body.
pub fn build(req: &CanonicalRequest, target: &BackendTarget) -> (body: Json)
    ensures
        body@ == encoded_request(*req, *target),
{
    let effort = match resolve_reasoning_effort(req, target) {
        Some(effort) => Some(effort.as_str()),
        None => None,
    };
    build_body(req, target.model.as_str(), effort, false)
}

} // verus!
