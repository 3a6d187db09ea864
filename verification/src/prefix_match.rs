//! What a prefix-cache lookup found.

use vstd::prelude::*;

verus! {

/// A prefix-cache match.
pub struct PrefixMatch {
    /// Physical blocks of the matched prefix, in logical order.
    pub matched_blocks: Vec<u32>,
    /// Disk block ids of the matched prefix.
    pub matched_disk_block_ids: Vec<u32>,
    pub matched_tokens: usize,
    /// Resident snapshot slot.
    pub ssm_snapshot: Option<usize>,
    /// Depth of the resident snapshot.
    pub ssm_snapshot_tokens: usize,
    /// Key of a spilled snapshot.
    pub ssm_snapshot_tier_key: Option<u64>,
    /// Depth of the spilled snapshot.
    pub ssm_snapshot_tier_tokens: usize,
    /// Whether the resident snapshot is a session tail.
    pub ssm_snapshot_is_tail: bool,
}

impl PrefixMatch {
    /// Whether nothing matched.
    pub open spec fn is_empty(&self) -> bool {
        &&& self.matched_blocks@.len() == 0
        &&& self.matched_disk_block_ids@.len() == 0
        &&& self.matched_tokens == 0
        &&& self.ssm_snapshot is None
        &&& self.ssm_snapshot_tokens == 0
        &&& self.ssm_snapshot_tier_key is None
        &&& self.ssm_snapshot_tier_tokens == 0
        &&& !self.ssm_snapshot_is_tail
    }

    /// A match of nothing.
    pub fn empty() -> (r: PrefixMatch)
        ensures
            r.is_empty(),
    {
        PrefixMatch {
            matched_blocks: Vec::new(),
            matched_disk_block_ids: Vec::new(),
            matched_tokens: 0,
            ssm_snapshot: None,
            ssm_snapshot_tokens: 0,
            ssm_snapshot_tier_key: None,
            ssm_snapshot_tier_tokens: 0,
            ssm_snapshot_is_tail: false,
        }
    }
}

/// A match of nothing brings no token, no block and no snapshot.
pub proof fn empty_matches_bring_nothing(r: PrefixMatch)
    requires
        call_ensures(PrefixMatch::empty, (), r),
    ensures
        r.matched_tokens == 0,
        r.matched_blocks@.len() == 0,
        r.matched_disk_block_ids@.len() == 0,
        r.ssm_snapshot is None,
        r.ssm_snapshot_tier_key is None,
        r.ssm_snapshot_tokens == 0,
        r.ssm_snapshot_tier_tokens == 0,
        !r.ssm_snapshot_is_tail,
{
}

} // verus!
