//! The end of a prompt's last chunk: which row gives the logits and where they go, and what of
//! the prompt enters the prefix cache.

use vstd::prelude::*;

use crate::exact_leaf::{exact_leaf, exact_leaf_spec, ExactLeaf};
use crate::sequence_state::SequenceState;
use crate::verify_single::{lemma_row_fits, ROW_ELEM_BYTES};

verus! {

/// Byte offset of the last processed token's hidden row.
pub fn last_row_offset(stream_offset: usize, proc_count: usize, h: usize) -> (r: usize)
    requires
        stream_offset + proc_count >= 1,
        stream_offset + proc_count <= usize::MAX,
        (stream_offset + proc_count) * h * 2 <= usize::MAX,
    ensures
        r == (stream_offset + proc_count - 1) * h * 2,
{
    proof {
        lemma_row_fits(stream_offset + proc_count - 1, stream_offset + proc_count, h as int);
    }
    (stream_offset + proc_count - 1) * h * ROW_ELEM_BYTES
}

/// Where the logits go.
#[derive(Clone, Copy, Debug, PartialEq, Eq, Structural)]
pub enum LogitsDst {
    /// The decode row.
    DecodeRow,
    /// A byte offset into the logits buffer.
    Offset(usize),
}

/// Where the logits of row `row` go: row 0 is the decode row.
pub fn logits_dst(row: usize, vocab: usize) -> (r: LogitsDst)
    requires
        row * vocab * 2 <= usize::MAX,
    ensures
        r == if row == 0 {
            LogitsDst::DecodeRow
        } else {
            LogitsDst::Offset((row * vocab * 2) as usize)
        },
{
    if row == 0 {
        LogitsDst::DecodeRow
    } else {
        proof {
            lemma_row_fits(row as int, row as int, vocab as int);
        }
        LogitsDst::Offset(row * vocab * ROW_ELEM_BYTES)
    }
}

/// What repairs a restore that covered the whole prompt: its last token was run a second time on
/// top of the restored state.
#[derive(Clone, Copy, Debug, PartialEq, Eq, Structural)]
pub struct ExactFixup {
    /// Snapshot to restore once more.
    pub snapshot: usize,
    /// Whether its stashed hidden row replaces the re-run's.
    pub restore_hidden: bool,
}

/// The repair of a restore that covered the whole prompt.
pub fn exact_fixup(seq: &SequenceState, has_hidden: bool) -> (r: Option<ExactFixup>)
    ensures
        r == match seq.marconi_exact_snap {
            Some(snapshot) => Some(ExactFixup { snapshot, restore_hidden: has_hidden }),
            None => None,
        },
{
    match seq.marconi_exact_snap {
        Some(snapshot) => Some(ExactFixup { snapshot, restore_hidden: has_hidden }),
        None => None,
    }
}

/// How much of a prompt may be cached.
#[derive(Clone, Copy, Debug, PartialEq, Eq, Structural)]
pub struct CacheExtent {
    /// Complete blocks with written KV.
    pub blocks: usize,
    /// Whether some complete block is left out because its KV was never written.
    pub capped: bool,
    /// Tokens to insert: the whole prompt, or the written blocks of a capped one.
    pub tokens: usize,
    /// Block-table entries to insert.
    pub table: usize,
    /// Disk ids to insert.
    pub disk: usize,
}

/// The smaller of two numbers.
pub open spec fn smaller(a: int, b: int) -> int {
    if a < b {
        a
    } else {
        b
    }
}

/// How much of a prompt may be cached.
pub open spec fn cache_extent_spec(seq: SequenceState, prompt: int, bs: int) -> CacheExtent {
    let full = prompt / bs;
    let valid = seq.kv_valid_tokens as int / bs;
    let blocks = smaller(full, valid);
    CacheExtent {
        blocks: blocks as usize,
        capped: blocks < full,
        tokens: (if blocks < full {
            blocks * bs
        } else {
            prompt
        }) as usize,
        table: smaller(blocks, seq.block_table@.len() as int) as usize,
        disk: smaller(blocks, seq.disk_block_ids@.len() as int) as usize,
    }
}

/// How much of a prompt of `prompt` tokens may be cached: only complete blocks of the prefix
/// whose KV was written.
pub fn cache_extent(seq: &SequenceState, prompt: usize, bs: usize) -> (r: CacheExtent)
    requires
        bs > 0,
    ensures
        r == cache_extent_spec(*seq, prompt as int, bs as int),
{
    let full: usize = prompt / bs;
    let valid: usize = seq.kv_valid_tokens / bs;
    let blocks: usize = if full < valid {
        full
    } else {
        valid
    };
    let capped: bool = blocks < full;
    proof {
        lemma_blocks_fit(prompt as int, bs as int, blocks as int);
    }
    let tokens: usize = if capped {
        blocks * bs
    } else {
        prompt
    };
    let table: usize = if blocks < seq.block_table.len() {
        blocks
    } else {
        seq.block_table.len()
    };
    let disk: usize = if blocks < seq.disk_block_ids.len() {
        blocks
    } else {
        seq.disk_block_ids.len()
    };
    CacheExtent { blocks, capped, tokens, table, disk }
}

/// Complete blocks of a range lie inside it.
pub proof fn lemma_blocks_fit(n: int, bs: int, blocks: int)
    requires
        bs > 0,
        0 <= n,
        0 <= blocks <= n / bs,
    ensures
        0 <= blocks * bs <= n,
{
    assert(0 <= blocks * bs <= n) by (nonlinear_arith)
        requires
            bs > 0,
            0 <= blocks <= n / bs,
    ;
}

/// A block whose KV was never written is not cached: the cached blocks end within the valid
/// prefix, and every complete block among the inserted tokens is one of them.
pub proof fn cached_blocks_are_written(seq: SequenceState, prompt: int, bs: int)
    requires
        bs > 0,
        0 <= prompt <= usize::MAX,
    ensures
        ({
            let e = cache_extent_spec(seq, prompt, bs);
            &&& e.blocks * bs <= seq.kv_valid_tokens
            &&& e.tokens <= prompt
            &&& e.tokens as int / bs == e.blocks
        }),
{
    let full = prompt / bs;
    let valid = seq.kv_valid_tokens as int / bs;
    let blocks = smaller(full, valid);
    assert(0 <= full && 0 <= valid) by (nonlinear_arith)
        requires
            full == prompt / bs,
            valid == seq.kv_valid_tokens as int / bs,
            bs > 0,
            prompt >= 0,
    ;
    assert(full <= prompt) by (nonlinear_arith)
        requires
            full == prompt / bs,
            bs > 0,
            prompt >= 0,
    ;
    lemma_blocks_fit(prompt, bs, blocks);
    lemma_blocks_fit(seq.kv_valid_tokens as int, bs, blocks);
    assert((blocks * bs) / bs == blocks) by (nonlinear_arith)
        requires
            bs > 0,
    ;
}

/// What of a prompt enters the prefix cache.
#[derive(Clone, Copy, Debug, PartialEq, Eq, Structural)]
pub enum FinalInsert {
    Nothing,
    /// Insert a prefix of `extent`, of which `matched` tokens were matched, without a snapshot: a
    /// snapshot of the whole prompt could not be reached through the shorter prefix.
    Prefix { extent: CacheExtent, matched: usize },
    /// Insert the whole prompt without a snapshot.
    Whole,
    /// Save a snapshot of the prompt's end and insert the whole prompt with it.
    SaveLeaf,
}

/// What of a prompt enters the prefix cache.
pub open spec fn final_insert_spec(
    seq: SequenceState,
    prompt: usize,
    bs: usize,
    vision: bool,
    snapshots_enabled: bool,
    exact_shortcut: bool,
) -> FinalInsert {
    let e = cache_extent_spec(seq, prompt as int, bs as int);
    let clean = !vision && seq.window() == 0;
    if seq.marconi_exact_snap is Some || e.blocks == 0 {
        FinalInsert::Nothing
    } else if e.capped {
        if clean {
            FinalInsert::Prefix {
                extent: e,
                matched: smaller(seq.cached_prefix_tokens as int, e.tokens as int) as usize,
            }
        } else {
            FinalInsert::Nothing
        }
    } else if snapshots_enabled && !(exact_leaf_spec(
        seq.tail_checkpoint_tokens,
        prompt,
        bs,
        exact_shortcut,
    ) is Redundant) {
        FinalInsert::SaveLeaf
    } else if clean {
        FinalInsert::Whole
    } else {
        FinalInsert::Nothing
    }
}

/// What of a prompt enters the prefix cache. `vision` says whether the tokens to insert hold
/// vision pads.
///
/// Nothing after a restore of the whole prompt or without a complete written block. A capped
/// prompt enters as a prefix. Otherwise the whole prompt enters, with a snapshot of its end when
/// snapshots are enabled and no checkpoint near the end stands in for it.
pub fn final_insert(
    seq: &SequenceState,
    prompt: usize,
    bs: usize,
    vision: bool,
    snapshots_enabled: bool,
    exact_shortcut: bool,
) -> (r: FinalInsert)
    requires
        bs > 0,
    ensures
        r == final_insert_spec(*seq, prompt, bs, vision, snapshots_enabled, exact_shortcut),
{
    let extent: CacheExtent = cache_extent(seq, prompt, bs);
    let clean: bool = !vision && seq.hss_window_start() == 0;
    if seq.marconi_exact_snap.is_some() || extent.blocks == 0 {
        return FinalInsert::Nothing;
    }
    if extent.capped {
        if clean {
            let matched: usize = if seq.cached_prefix_tokens < extent.tokens {
                seq.cached_prefix_tokens
            } else {
                extent.tokens
            };
            return FinalInsert::Prefix { extent, matched };
        }
        return FinalInsert::Nothing;
    }
    if snapshots_enabled {
        match exact_leaf(seq.tail_checkpoint_tokens, prompt, bs, exact_shortcut) {
            ExactLeaf::Redundant { tail: _, replay: _ } => {},
            _ => {
                return FinalInsert::SaveLeaf;
            },
        }
    }
    if clean {
        FinalInsert::Whole
    } else {
        FinalInsert::Nothing
    }
}

/// The logits come from the last processed row of the stream: the row that ends where the
/// stream's processed rows end, each `h` elements of two bytes wide.
pub proof fn logits_come_from_the_last_row(
    stream_offset: usize,
    proc_count: usize,
    h: usize,
    r: usize,
)
    requires
        call_ensures(last_row_offset, (stream_offset, proc_count, h), r),
    ensures
        r + 2 * h == (stream_offset + proc_count) * (2 * h),
{
    let n = stream_offset + proc_count;
    assert((n - 1) * h * 2 + 2 * h == n * (2 * h)) by (nonlinear_arith);
}

/// Row zero is the decode row; any other row's logits lie behind those of all rows before it.
pub proof fn logits_rows_do_not_overlap(row: usize, vocab: usize, r: LogitsDst)
    requires
        call_ensures(logits_dst, (row, vocab), r),
        row * vocab * 2 <= usize::MAX,
    ensures
        r is DecodeRow <==> row == 0,
        r matches LogitsDst::Offset(bytes) ==> bytes == row * (2 * vocab),
{
    assert(row * vocab * 2 == row * (2 * vocab)) by (nonlinear_arith);
    assert(0 <= row * vocab) by (nonlinear_arith)
        requires
            0 <= row,
            0 <= vocab,
    ;
}

/// A prompt that was restored whole restores its own snapshot again, with the stashed row exactly
/// when there is one; no other prompt does.
pub proof fn exact_prompts_restore_their_snapshot(
    seq: &SequenceState,
    has_hidden: bool,
    r: Option<ExactFixup>,
)
    requires
        call_ensures(exact_fixup, (seq, has_hidden), r),
    ensures
        r is Some <==> seq.marconi_exact_snap is Some,
        r matches Some(f) ==> seq.marconi_exact_snap == Some(f.snapshot) && f.restore_hidden
            == has_hidden,
{
}

/// Only complete blocks with written KV are cached, and all of them: the blocks lie inside the
/// prompt and inside the valid prefix, and one block more would not. A prompt all of whose
/// complete blocks are written is cached whole; any other is cut to its written blocks. No more
/// table entries or disk ids are cached than there are.
pub proof fn cached_extents_are_complete_and_written(
    seq: &SequenceState,
    prompt: usize,
    bs: usize,
    r: CacheExtent,
)
    requires
        call_ensures(cache_extent, (seq, prompt, bs), r),
        bs > 0,
    ensures
        r.blocks * bs <= prompt,
        r.blocks * bs <= seq.kv_valid_tokens,
        (r.blocks + 1) * bs > prompt || (r.blocks + 1) * bs > seq.kv_valid_tokens,
        r.capped <==> (r.blocks + 1) * bs <= prompt,
        r.capped ==> r.tokens == r.blocks * bs,
        !r.capped ==> r.tokens == prompt,
        r.table <= r.blocks && r.table <= seq.block_table@.len() && (r.table == r.blocks || r.table
            == seq.block_table@.len()),
        r.disk <= r.blocks && r.disk <= seq.disk_block_ids@.len() && (r.disk == r.blocks || r.disk
            == seq.disk_block_ids@.len()),
{
    let b = bs as int;
    let full = prompt as int / b;
    let valid = seq.kv_valid_tokens as int / b;
    assert(0 <= full <= prompt && full * b <= prompt < (full + 1) * b) by (nonlinear_arith)
        requires
            full == prompt as int / b,
            0 < b,
    ;
    assert(0 <= valid && valid * b <= seq.kv_valid_tokens < (valid + 1) * b) by (nonlinear_arith)
        requires
            valid == seq.kv_valid_tokens as int / b,
            0 < b,
    ;
    let blocks = smaller(full, valid);
    assert(blocks * b <= full * b && blocks * b <= valid * b) by (nonlinear_arith)
        requires
            blocks <= full,
            blocks <= valid,
            0 < b,
    ;
    if blocks < full {
        assert((blocks + 1) * b <= full * b) by (nonlinear_arith)
            requires
                blocks + 1 <= full,
                0 < b,
        ;
    }
    assert(0 <= blocks * b) by (nonlinear_arith)
        requires
            0 <= blocks,
            0 < b,
    ;
    assert(seq.block_table.len() == seq.block_table@.len());
    assert(seq.disk_block_ids.len() == seq.disk_block_ids@.len());
}

/// The end of a prompt is cached as far as it may be. Nothing is inserted of a prompt that was
/// restored whole or without a complete written block. A prompt with unwritten blocks is inserted
/// only up to them and without a snapshot. A whole prompt gets a snapshot of its end where those
/// are enabled and no checkpoint stands in, and is inserted plainly otherwise. A vision prompt, or
/// one whose window has slid, is never inserted plainly.
pub proof fn prompt_ends_are_cached_as_far_as_written(
    seq: &SequenceState,
    prompt: usize,
    bs: usize,
    vision: bool,
    snapshots_enabled: bool,
    exact_shortcut: bool,
    r: FinalInsert,
    extent: CacheExtent,
    leaf: ExactLeaf,
)
    requires
        call_ensures(
            final_insert,
            (seq, prompt, bs, vision, snapshots_enabled, exact_shortcut),
            r,
        ),
        call_ensures(cache_extent, (seq, prompt, bs), extent),
        call_ensures(
            crate::exact_leaf::exact_leaf,
            (seq.tail_checkpoint_tokens, prompt, bs, exact_shortcut),
            leaf,
        ),
    ensures
        ({
            let clean = !vision && seq.disk_block_ids@.len() <= seq.block_table@.len();
            let open = seq.marconi_exact_snap is None && extent.blocks > 0;
            let leaf_wanted = snapshots_enabled && !(leaf is Redundant);
            &&& r is SaveLeaf <==> open && !extent.capped && leaf_wanted
            &&& r is Whole <==> open && !extent.capped && !leaf_wanted && clean
            &&& r is Prefix <==> open && extent.capped && clean
            &&& r matches FinalInsert::Prefix { extent: e, matched } ==> {
                &&& e == extent
                &&& matched <= extent.tokens
                &&& matched <= seq.cached_prefix_tokens
                &&& matched == extent.tokens || matched == seq.cached_prefix_tokens
            }
        }),
{
}

} // verus!
