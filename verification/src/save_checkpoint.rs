//! Checkpoints at the end of a prefill chunk that is not the last: when one is taken, and what of
//! it enters the prefix cache.

use vstd::prelude::*;

use crate::sequence_state::SequenceState;

verus! {

/// A checkpoint to take.
#[derive(Clone, Copy, Debug, PartialEq, Eq, Structural)]
pub struct Checkpoint {
    pub end_token: usize,
    pub end_block: usize,
    /// Whether it lies at or one block below the last block boundary under the prompt's end.
    pub is_prompt_tail: bool,
}

/// The last block boundary below the prompt's end.
pub open spec fn tail_boundary(prompt: int, bs: int) -> int {
    if prompt == 0 {
        0
    } else {
        (prompt - 1) / bs * bs
    }
}

/// Whether a chunk end is a prompt tail: a warm next turn's match lands at or one block below it.
pub open spec fn is_tail_end(prompt: int, end: int, bs: int) -> bool {
    let tail = tail_boundary(prompt, bs);
    end == tail || (tail >= bs && end == tail - bs)
}

/// The checkpoint of a chunk that ends at `end`.
pub open spec fn checkpoint_spec(
    enabled: bool,
    prompt: int,
    end: int,
    bs: int,
    interval: int,
    kv_valid: int,
) -> Option<Checkpoint> {
    let end_block = end / bs;
    if enabled && end_block != 0 && (is_tail_end(prompt, end, bs) || (interval > 0 && end_block
        % interval == 0)) && kv_valid / bs >= end_block {
        Some(
            Checkpoint {
                end_token: end as usize,
                end_block: end_block as usize,
                is_prompt_tail: is_tail_end(prompt, end, bs),
            },
        )
    } else {
        None
    }
}

/// The checkpoint of a chunk that ends at `end_token`, if one is taken: snapshots are enabled, the
/// end is a prompt tail or its block a multiple of the interval, at least one block is complete,
/// and the KV of every block below it is known to be written.
pub fn checkpoint_wanted(
    enabled: bool,
    prompt: usize,
    end_token: usize,
    bs: usize,
    interval: usize,
    kv_valid_tokens: usize,
) -> (r: Option<Checkpoint>)
    requires
        bs > 0,
    ensures
        r == checkpoint_spec(
            enabled,
            prompt as int,
            end_token as int,
            bs as int,
            interval as int,
            kv_valid_tokens as int,
        ),
{
    if !enabled {
        return None;
    }
    let end_block: usize = end_token / bs;
    let below: usize = prompt.saturating_sub(1);
    proof {
        crate::finalize_last::lemma_blocks_fit(below as int, bs as int, below as int / bs as int);
        if prompt == 0 {
            assert(0int / (bs as int) == 0) by (nonlinear_arith)
                requires
                    bs > 0,
            ;
            assert(0 * bs == 0) by (nonlinear_arith);
        }
    }
    let tail: usize = below / bs * bs;
    let is_prompt_tail: bool = end_token == tail || (tail >= bs && end_token == tail - bs);
    let on_interval: bool = interval > 0 && end_block % interval == 0;
    if end_block == 0 || !(is_prompt_tail || on_interval) {
        return None;
    }
    if kv_valid_tokens / bs < end_block {
        return None;
    }
    Some(Checkpoint { end_token, end_block, is_prompt_tail })
}

/// What becomes of a saved checkpoint.
#[derive(Clone, Copy, Debug, PartialEq, Eq, Structural)]
pub enum CheckpointInsert {
    /// Free the snapshot: only the skipped insert would have referenced it.
    Free,
    /// Insert the prefix with the first `blocks` table entries and `disk` disk ids. The whole
    /// prefix counts as matched, so no block takes an extra reference here.
    Insert { blocks: usize, disk: usize },
}

/// What becomes of a saved checkpoint: it is freed when the window has slid, when the table is
/// shorter than the prefix, or when the prefix holds vision pads.
pub fn checkpoint_insert(seq: &SequenceState, ckpt: &Checkpoint, vision: bool) -> (r: CheckpointInsert)
    ensures
        r == if seq.window() > 0 || ckpt.end_block > seq.block_table@.len() || vision {
            CheckpointInsert::Free
        } else {
            (CheckpointInsert::Insert {
                blocks: ckpt.end_block,
                disk: if seq.disk_block_ids@.len() >= ckpt.end_block {
                    ckpt.end_block
                } else {
                    0
                },
            })
        },
{
    if seq.hss_window_start() > 0 || ckpt.end_block > seq.block_table.len() || vision {
        return CheckpointInsert::Free;
    }
    let disk: usize = if seq.disk_block_ids.len() >= ckpt.end_block {
        ckpt.end_block
    } else {
        0
    };
    CheckpointInsert::Insert { blocks: ckpt.end_block, disk }
}

/// Record an inserted checkpoint: a prompt tail is remembered, so that the prompt's end need not
/// be saved as well.
pub fn checkpoint_inserted(seq: &mut SequenceState, ckpt: &Checkpoint)
    ensures
        *final(seq) == (SequenceState {
            tail_checkpoint_tokens: if ckpt.is_prompt_tail {
                Some(ckpt.end_token)
            } else {
                old(seq).tail_checkpoint_tokens
            },
            ..*old(seq)
        }),
{
    if ckpt.is_prompt_tail {
        seq.tail_checkpoint_tokens = Some(ckpt.end_token);
    }
}

/// A remembered prompt tail stands in for the prompt's end: it lies below it, and no more than
/// two blocks.
pub proof fn prompt_tail_stands_in(prompt: int, end: int, bs: int)
    requires
        bs > 0,
        prompt > 0,
        end >= 0,
        is_tail_end(prompt, end, bs),
    ensures
        crate::exact_leaf::stands_in(end, prompt, bs),
{
    let tail = tail_boundary(prompt, bs);
    let q = (prompt - 1) / bs;
    assert(q * bs <= prompt - 1 < q * bs + bs) by (nonlinear_arith)
        requires
            q == (prompt - 1) / bs,
            bs > 0,
    ;
}

/// A checkpoint covers only written KV: its blocks end within the valid prefix.
pub proof fn checkpoint_blocks_are_written(
    enabled: bool,
    prompt: int,
    end: int,
    bs: int,
    interval: int,
    kv_valid: int,
)
    requires
        bs > 0,
        0 <= end <= usize::MAX,
        0 <= kv_valid,
    ensures
        checkpoint_spec(enabled, prompt, end, bs, interval, kv_valid) matches Some(c) ==> c.end_block
            * bs <= kv_valid && c.end_block * bs <= end,
{
    let b = end / bs;
    assert(0 <= b <= end) by (nonlinear_arith)
        requires
            b == end / bs,
            bs > 0,
            end >= 0,
    ;
    crate::finalize_last::lemma_blocks_fit(end, bs, b);
    if kv_valid / bs >= b {
        crate::finalize_last::lemma_blocks_fit(kv_valid, bs, b);
    }
}

/// A chunk's end is checkpointed exactly when that is enabled, at least one block is complete and
/// all complete blocks are written, and it lies at the last block boundary below the prompt's end
/// or one block before it, or its block number is a multiple of the interval. The checkpoint ends
/// where the chunk does.
pub proof fn checkpoints_lie_at_tails_and_intervals(
    enabled: bool,
    prompt: usize,
    end_token: usize,
    bs: usize,
    interval: usize,
    kv_valid_tokens: usize,
    r: Option<Checkpoint>,
    tail: int,
)
    requires
        call_ensures(
            checkpoint_wanted,
            (enabled, prompt, end_token, bs, interval, kv_valid_tokens),
            r,
        ),
        bs > 0,
        prompt > 0,
        tail >= 0,
        tail * bs < prompt <= (tail + 1) * bs,
    ensures
        ({
            let block = end_token as int / bs as int;
            let at_tail = end_token == tail * bs || (tail >= 1 && end_token == (tail - 1) * bs);
            let due = interval > 0 && block % interval as int == 0;
            &&& r is Some <==> enabled && block > 0 && kv_valid_tokens as int / bs as int >= block
                && (at_tail || due)
            &&& r matches Some(c) ==> c.end_token == end_token && c.end_block == block
                && c.is_prompt_tail == at_tail
        }),
{
    let b = bs as int;
    let q = (prompt - 1) / b;
    assert(q * b <= prompt - 1 < (q + 1) * b) by (nonlinear_arith)
        requires
            q == (prompt - 1) / b,
            0 < b,
    ;
    assert(q == tail) by (nonlinear_arith)
        requires
            q * b <= prompt - 1 < (q + 1) * b,
            tail * b < prompt <= (tail + 1) * b,
            0 < b,
    ;
    assert(tail * b >= b <==> tail >= 1) by (nonlinear_arith)
        requires
            0 < b,
            tail >= 0,
    ;
    assert((tail - 1) * b == tail * b - b) by (nonlinear_arith);
    let block = end_token as int / b;
    assert(0 <= block <= end_token) by (nonlinear_arith)
        requires
            block == end_token as int / b,
            0 < b,
    ;
}

/// A checkpoint is inserted with exactly its own blocks, and with their disk ids if all of them
/// have one; it is freed when the window has slid, a block is missing, or the prompt has vision
/// rows.
pub proof fn checkpoints_are_inserted_with_their_blocks(
    seq: &SequenceState,
    ckpt: &Checkpoint,
    vision: bool,
    r: CheckpointInsert,
)
    requires
        call_ensures(checkpoint_insert, (seq, ckpt, vision), r),
    ensures
        r is Insert <==> !vision && seq.disk_block_ids@.len() <= seq.block_table@.len()
            && ckpt.end_block <= seq.block_table@.len(),
        r matches CheckpointInsert::Insert { blocks, disk } ==> {
            &&& blocks == ckpt.end_block
            &&& seq.disk_block_ids@.len() >= blocks ==> disk == blocks
            &&& seq.disk_block_ids@.len() < blocks ==> disk == 0
        },
{
}

/// An inserted checkpoint at the prompt's tail is remembered at its own token, and no other is;
/// nothing else of the sequence changes.
pub proof fn tail_checkpoints_are_remembered(seq: &mut SequenceState, ckpt: &Checkpoint)
    requires
        call_ensures(checkpoint_inserted, (seq, ckpt), ()),
    ensures
        ckpt.is_prompt_tail ==> final(seq).tail_checkpoint_tokens == Some(ckpt.end_token),
        !ckpt.is_prompt_tail ==> final(seq).tail_checkpoint_tokens == old(
            seq,
        ).tail_checkpoint_tokens,
        *final(seq) == (SequenceState {
            tail_checkpoint_tokens: final(seq).tail_checkpoint_tokens,
            ..*old(seq)
        }),
{
}

} // verus!
