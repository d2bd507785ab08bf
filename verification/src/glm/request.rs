//! Builds GLM chat-completions requests.
use vstd::prelude::*;

use crate::canonical::{BackendTarget, CanonicalRequest, ReasoningEffort};
use crate::json::{
    member, member_after_optional, member_after_set, member_of_nothing, put, removed_member_is_gone,
    set_member_is_read_back, tag, take_out, with_member, without_member, Json, Tree,
};
use crate::oai_chat_wire::canonical_to_chat;
use crate::oai_chat_wire::canonical_to_chat::{body_names_are_distinct, chat_body};

verus! {

/// What GLM's `thinking` switch says for an effort: off for the least.
pub open spec fn thinking_switch(effort: ReasoningEffort) -> Tree {
    Tree::Object(
        with_member(
            seq![],
            "type"@,
            Tree::Text(
                if effort == ReasoningEffort::Minimal {
                    "disabled"@
                } else {
                    "enabled"@
                },
            ),
        ),
    )
}

/// A chat body for GLM: without `reasoning_effort`, and with the `thinking`
/// switch where there is an effort.
pub open spec fn switched(body: Tree, effort: Option<ReasoningEffort>) -> Tree {
    match body {
        Tree::Object(m) => {
            let rest = without_member(m, "reasoning_effort"@);
            match effort {
                Some(e) => Tree::Object(with_member(rest, "thinking"@, thinking_switch(e))),
                None => Tree::Object(rest),
            }
        },
        _ => body,
    }
}

/// Builds a request body.
pub fn build(req: &CanonicalRequest, target: &BackendTarget, accepts_xhigh: bool) -> (body: Json)
    ensures
        body@ == switched(
            chat_body(*req, *target, accepts_xhigh),
            req.resolved_policy.reasoning_effort,
        ),
{
    match canonical_to_chat::build(req, target, accepts_xhigh) {
        Json::Object(entries) => {
            let mut entries = entries;
            take_out(&mut entries, "reasoning_effort");
            if let Some(effort) = req.resolved_policy.reasoning_effort {
                let state = match effort {
                    ReasoningEffort::Minimal => "disabled",
                    _ => "enabled",
                };
                let mut switch = crate::json::no_members();
                put(&mut switch, "type", Json::text(state));
                put(&mut entries, "thinking", Json::Object(switch));
            }
            Json::Object(entries)
        },
        other => other,
    }
}

/// GLM is never sent `reasoning_effort`, and where there is an effort it is
/// sent the `thinking` switch of it.
pub proof fn effort_becomes_the_switch(
    request: CanonicalRequest,
    target: BackendTarget,
    accepts_xhigh: bool,
)
    ensures
        ({
            let effort = request.resolved_policy.reasoning_effort;
            let body = switched(chat_body(request, target, accepts_xhigh), effort);
            &&& body.get("reasoning_effort"@) is None
            &&& effort is Some ==> body.get("thinking"@) == Some(thinking_switch(effort->0))
        }),
{
    let effort = request.resolved_policy.reasoning_effort;
    body_names_are_distinct(
        request,
        target.model@,
        canonical_to_chat::request_effort(request, accepts_xhigh),
        true,
    );
    if let Tree::Object(m) = chat_body(request, target, accepts_xhigh) {
        let rest = without_member(m, "reasoning_effort"@);
        removed_member_is_gone(m, "reasoning_effort"@, "thinking"@);
        if let Some(e) = effort {
            reveal_strlit("thinking");
            reveal_strlit("reasoning_effort");
            assert("thinking"@.len() != "reasoning_effort"@.len());
            set_member_is_read_back(rest, "thinking"@, thinking_switch(e), "reasoning_effort"@);
        }
    }
}

/// A GLM body is the chat body, but for the effort and the switch. The switch is
/// off for the least effort, on for any other, and missing where no effort is
/// known.
pub proof fn body_is_the_chat_body(
    request: CanonicalRequest,
    target: BackendTarget,
    accepts_xhigh: bool,
    key: Seq<char>,
)
    ensures
        ({
            let chat = chat_body(request, target, accepts_xhigh);
            let effort = request.resolved_policy.reasoning_effort;
            let body = switched(chat, effort);
            &&& key != "reasoning_effort"@ && key != "thinking"@ ==> body.get(key) == chat.get(key)
            &&& match (body.get("thinking"@), effort) {
                (Some(switch), Some(e)) => switch.get("type"@) == Some(
                    Tree::Text(
                        if e == ReasoningEffort::Minimal {
                            "disabled"@
                        } else {
                            "enabled"@
                        },
                    ),
                ),
                (None, None) => true,
                _ => false,
            }
        }),
{
    broadcast use {member_after_optional, member_after_set, member_of_nothing};

    let effort = request.resolved_policy.reasoning_effort;
    body_names_are_distinct(
        request,
        target.model@,
        canonical_to_chat::request_effort(request, accepts_xhigh),
        true,
    );
    lemma_names();
    if let Tree::Object(m) = chat_body(request, target, accepts_xhigh) {
        removed_member_is_gone(m, "reasoning_effort"@, key);
        removed_member_is_gone(m, "reasoning_effort"@, "thinking"@);
        assert(member(m, "thinking"@) is None);
        if let Some(e) = effort {
            assert(thinking_switch(e).get("type"@) is Some);
        }
    }
}

/// The names of the members of a body differ.
proof fn lemma_names()
    ensures
        tag("model"@) == 6100108,
        tag("messages"@) == 9099815,
        tag("max_tokens"@) == 11101215,
        tag("temperature"@) == 12171501,
        tag("top_p"@) == 6171312,
        tag("presence_penalty"@) == 17129621,
        tag("frequency_penalty"@) == 18032221,
        tag("stop"@) == 5161212,
        tag("seed"@) == 5160200,
        tag("response_format"@) == 16150216,
        tag("tools"@) == 6171215,
        tag("tool_choice"@) == 12170001,
        tag("stream"@) == 7160209,
        tag("stream_options"@) == 15161215,
        tag("reasoning_effort"@) == 17150416,
        tag("thinking"@) == 9170803,
{
    reveal_strlit("model");
    reveal_strlit("messages");
    reveal_strlit("max_tokens");
    reveal_strlit("temperature");
    reveal_strlit("top_p");
    reveal_strlit("presence_penalty");
    reveal_strlit("frequency_penalty");
    reveal_strlit("stop");
    reveal_strlit("seed");
    reveal_strlit("response_format");
    reveal_strlit("tools");
    reveal_strlit("tool_choice");
    reveal_strlit("stream");
    reveal_strlit("stream_options");
    reveal_strlit("reasoning_effort");
    reveal_strlit("thinking");
}

} // verus!
