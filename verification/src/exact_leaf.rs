//! Whether the prefill-end ("exact leaf") snapshot gets a pool slot.
//!
//! The exact leaf holds the state after the whole prompt. When the prefill already has a
//! checkpoint at most two blocks below the prompt end, a prompt that extends this one restores
//! from that checkpoint instead.

use vstd::prelude::*;

use crate::verify_switches::{switch_armed, value_switch_armed};

verus! {

/// Whether the exact leaf is saved.
#[derive(Debug, Clone, Copy, PartialEq, Eq, Structural)]
pub enum ExactLeaf {
    /// Save it: this prefill has no checkpoint below the prompt end and within two blocks of it.
    Save,
    /// Save it: the exact shortcut is enabled, and it needs the last-token hidden that only the
    /// leaf save stashes.
    SaveForShortcut,
    /// Skip it: a checkpoint at token `tail` lies `replay` tokens (at most two blocks) below the
    /// prompt end.
    Redundant { tail: usize, replay: usize },
}

/// Whether a checkpoint at `tail` stands in for the leaf of a prompt of `total` tokens.
pub open spec fn stands_in(tail: int, total: int, block_size: int) -> bool {
    tail < total && total - tail <= 2 * block_size
}

/// Decide from the checkpoint this prefill already has: the depth of a prompt-tail checkpoint
/// saved during it or of the snapshot it restored from, and `None` when there is neither.
pub fn exact_leaf(
    tail_checkpoint: Option<usize>,
    total: usize,
    block_size: usize,
    exact_shortcut_enabled: bool,
) -> (r: ExactLeaf)
    ensures
        r == exact_leaf_spec(tail_checkpoint, total, block_size, exact_shortcut_enabled),
{
    if exact_shortcut_enabled {
        return ExactLeaf::SaveForShortcut;
    }
    match tail_checkpoint {
        Some(tail) => {
            if tail < total {
                let replay: usize = total - tail;
                if replay / 2 + replay % 2 <= block_size {
                    return ExactLeaf::Redundant { tail, replay };
                }
            }
            ExactLeaf::Save
        },
        None => ExactLeaf::Save,
    }
}

/// The decision of [`exact_leaf`].
pub open spec fn exact_leaf_spec(
    tail_checkpoint: Option<usize>,
    total: usize,
    block_size: usize,
    exact_shortcut_enabled: bool,
) -> ExactLeaf {
    if exact_shortcut_enabled {
        ExactLeaf::SaveForShortcut
    } else if tail_checkpoint is Some && stands_in(
        tail_checkpoint->0 as int,
        total as int,
        block_size as int,
    ) {
        ExactLeaf::Redundant {
            tail: tail_checkpoint->0,
            replay: (total - tail_checkpoint->0) as usize,
        }
    } else {
        ExactLeaf::Save
    }
}

/// A skipped leaf always leaves a checkpoint to resume from: it lies below the prompt end, and
/// resuming there replays exactly the tokens up to the prompt end, at most two blocks of them.
pub proof fn skipped_leaf_leaves_a_checkpoint(
    tail_checkpoint: Option<usize>,
    total: usize,
    block_size: usize,
    exact_shortcut_enabled: bool,
)
    ensures
        exact_leaf_spec(tail_checkpoint, total, block_size, exact_shortcut_enabled) matches ExactLeaf::Redundant {
            tail,
            replay,
        } ==> tail_checkpoint == Some(tail) && tail + replay == total && 0 < replay <= 2
            * block_size,
{
}

/// Whether the exact full-prompt shortcut is enabled, from the raw value of its switch.
pub fn marconi_exact_enabled(raw: Option<&str>) -> (r: bool)
    ensures
        r == switch_armed(raw),
{
    value_switch_armed(raw)
}

/// The leaf is skipped exactly when the shortcut is off and this prefill has a checkpoint below
/// the prompt's end and at most two blocks from it; what would be replayed is the gap.
pub proof fn leaves_are_skipped_near_a_checkpoint(
    tail_checkpoint: Option<usize>,
    total: usize,
    block_size: usize,
    exact_shortcut_enabled: bool,
    r: ExactLeaf,
)
    requires
        call_ensures(exact_leaf, (tail_checkpoint, total, block_size, exact_shortcut_enabled), r),
    ensures
        r is SaveForShortcut <==> exact_shortcut_enabled,
        r is Redundant <==> !exact_shortcut_enabled && (tail_checkpoint matches Some(t) && t < total
            && total <= t + 2 * block_size),
        r matches ExactLeaf::Redundant { tail, replay } ==> tail_checkpoint == Some(tail) && tail
            + replay == total,
{
}

/// The shortcut is armed by the exact value `1` alone.
pub proof fn the_shortcut_is_armed_by_one(raw: Option<&str>, r: bool)
    requires
        call_ensures(marconi_exact_enabled, (raw,), r),
    ensures
        r <==> (raw matches Some(s) && s@ == seq!['1']),
{
}

} // verus!
