//! The prompt-token count reported as served from the prefix cache: the tokens whose KV the
//! prefill read instead of recomputing.
//!
//! A lookup can match and the prefill can still recompute all of the matched KV; such a match
//! counts for nothing here.

use vstd::prelude::*;

verus! {

/// Prompt tokens served from the prefix cache.
pub open spec fn reused_spec(matched: int, kv_write_start: int, skip: bool) -> int {
    if !skip && kv_write_start == 0 {
        0
    } else if kv_write_start < matched {
        kv_write_start
    } else {
        matched
    }
}

/// Prompt tokens served from the prefix cache: the position the prefill starts writing at, capped
/// at the match, and 0 when the match was found but discarded.
pub fn reused_prefix_tokens(matched: usize, kv_write_start: usize, skip: bool) -> (r: usize)
    ensures
        r == reused_spec(matched as int, kv_write_start as int, skip),
        r <= matched,
{
    if !skip && kv_write_start == 0 {
        return 0;
    }
    if kv_write_start < matched {
        kv_write_start
    } else {
        matched
    }
}

/// What is reported as reused was both matched and skipped, and all of it is reported.
pub proof fn reused_tokens_were_matched_and_skipped(
    matched: usize,
    kv_write_start: usize,
    skip: bool,
    r: usize,
)
    requires
        call_ensures(reused_prefix_tokens, (matched, kv_write_start, skip), r),
    ensures
        r <= matched,
        r <= kv_write_start,
        r == matched || r == kv_write_start,
{
}

} // verus!
