//! Token counts as DeepSeek reports them.
use vstd::prelude::*;

use crate::json::{u32_member, Json, Tree};
use crate::stream::{Counts, Usage};

verus! {

/// The canonical form of a `usage` value. The input tokens are those that were
/// not served from the cache, or all prompt tokens where that is not reported;
/// the value itself is kept.
pub open spec fn mapped(raw: Tree) -> Counts {
    Counts {
        input_tokens: match u32_member(raw, "prompt_cache_miss_tokens"@) {
            Some(n) => Some(n),
            None => u32_member(raw, "prompt_tokens"@),
        },
        output_tokens: u32_member(raw, "completion_tokens"@),
        cache_creation_input_tokens: None,
        cache_read_input_tokens: u32_member(raw, "prompt_cache_hit_tokens"@),
        reasoning_tokens: None,
        estimated: false,
        provider_raw: Some(raw),
    }
}

/// The canonical form of a `usage` value.
pub fn map_usage(raw: &Json) -> (usage: Usage)
    ensures
        usage@ == mapped(raw@),
{
    let input = match raw.u32_member("prompt_cache_miss_tokens") {
        Some(n) => Some(n),
        None => raw.u32_member("prompt_tokens"),
    };
    Usage {
        input_tokens: input,
        output_tokens: raw.u32_member("completion_tokens"),
        cache_creation_input_tokens: None,
        cache_read_input_tokens: raw.u32_member("prompt_cache_hit_tokens"),
        reasoning_tokens: None,
        estimated: false,
        provider_raw: Some(raw.duplicate()),
    }
}

} // verus!
