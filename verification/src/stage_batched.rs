//! Attention metadata of a batched prefill pass: every stream's tokens stacked one after another,
//! with one array per field, each rounded up to eight bytes.

use vstd::prelude::*;

use crate::align::{align_up_spec, lemma_align_up};
use crate::kv_rows::{
    lemma_slot_fits, positions, positions_spec, seq_slot_spec, seq_slots, MAX_BLOCK_SIZE,
};
use crate::sequence_state::{DevicePtr, SequenceState};

verus! {

/// One stream's entry in the stacked arrays.
#[derive(Clone, Copy, Debug)]
pub struct StreamStage {
    /// Position of this stream's first processed token.
    pub proc_start: usize,
    /// Tokens this stream contributes.
    pub proc_count: usize,
    pub block_table_dev: DevicePtr,
    pub seq_len_dev: DevicePtr,
    /// Block-table entries this stream uses.
    pub num_blocks: usize,
}

/// Tokens of the first `n` streams.
pub open spec fn stacked_tokens(infos: Seq<StreamStage>, n: int) -> int
    decreases n,
{
    if n <= 0 {
        0
    } else {
        stacked_tokens(infos, n - 1) + infos[n - 1].proc_count
    }
}

/// Stacked tokens grow with the streams.
pub proof fn lemma_stacked_mono(infos: Seq<StreamStage>, a: int, b: int)
    requires
        0 <= a <= b <= infos.len(),
    ensures
        0 <= stacked_tokens(infos, a) <= stacked_tokens(infos, b),
    decreases b,
{
    if b > 0 {
        if a == b {
            lemma_stacked_mono(infos, 0, b - 1);
        } else {
            lemma_stacked_mono(infos, a, b - 1);
        }
    }
}

/// Offsets of the stacked arrays from their base, and the bytes they take.
#[derive(Clone, Copy, Debug, PartialEq, Eq, Structural)]
pub struct StagedLayout {
    pub positions_h: usize,
    pub positions_w: usize,
    pub slots: usize,
    pub block_ptrs: usize,
    pub seq_len_ptrs: usize,
    pub cu_seqlens: usize,
    pub kv_lens: usize,
    pub staged_bytes: usize,
}

/// Bytes of the arrays before the slots: one position stream, or three.
pub open spec fn positions_bytes(total: int, use_mrope: bool) -> int {
    if use_mrope {
        3 * align_up_spec(total * 4, 8)
    } else {
        align_up_spec(total * 4, 8)
    }
}

/// Bytes of all arrays of `n` streams with `total` tokens.
pub open spec fn staged_bytes_spec(n: int, total: int, use_mrope: bool) -> int {
    positions_bytes(total, use_mrope) + total * 8 + n * 8 + n * 8 + align_up_spec((n + 1) * 4, 8)
        + align_up_spec(n * 4, 8)
}

/// Offsets of the stacked arrays.
pub open spec fn staged_layout_spec(n: int, total: int, use_mrope: bool) -> StagedLayout {
    let p = align_up_spec(total * 4, 8);
    let slots = positions_bytes(total, use_mrope);
    let block_ptrs = slots + total * 8;
    let seq_len_ptrs = block_ptrs + n * 8;
    let cu = seq_len_ptrs + n * 8;
    let kv = cu + align_up_spec((n + 1) * 4, 8);
    StagedLayout {
        positions_h: (if use_mrope {
            p
        } else {
            0
        }) as usize,
        positions_w: (if use_mrope {
            2 * p
        } else {
            0
        }) as usize,
        slots: slots as usize,
        block_ptrs: block_ptrs as usize,
        seq_len_ptrs: seq_len_ptrs as usize,
        cu_seqlens: cu as usize,
        kv_lens: kv as usize,
        staged_bytes: staged_bytes_spec(n, total, use_mrope) as usize,
    }
}

/// The stacked arrays do not overlap, every one starts at a multiple of eight, and all lie within
/// the staged bytes.
pub proof fn staged_arrays_are_disjoint(n: int, total: int, use_mrope: bool)
    requires
        0 <= n,
        0 <= total,
        staged_bytes_spec(n, total, use_mrope) <= usize::MAX,
    ensures
        ({
            let l = staged_layout_spec(n, total, use_mrope);
            &&& use_mrope ==> total * 4 <= l.positions_h && l.positions_h + total * 4
                <= l.positions_w && l.positions_w + total * 4 <= l.slots
            &&& !use_mrope ==> l.positions_h == 0 && l.positions_w == 0 && total * 4 <= l.slots
            &&& l.slots + total * 8 <= l.block_ptrs
            &&& l.block_ptrs + n * 8 <= l.seq_len_ptrs
            &&& l.seq_len_ptrs + n * 8 <= l.cu_seqlens
            &&& l.cu_seqlens + (n + 1) * 4 <= l.kv_lens
            &&& l.kv_lens + n * 4 <= l.staged_bytes
            &&& l.slots % 8 == 0
            &&& l.block_ptrs % 8 == 0
            &&& l.seq_len_ptrs % 8 == 0
            &&& l.cu_seqlens % 8 == 0
            &&& l.kv_lens % 8 == 0
        }),
{
    lemma_align_up(total * 4, 8);
    lemma_align_up((n + 1) * 4, 8);
    lemma_align_up(n * 4, 8);
    lemma_offsets(
        n,
        total,
        use_mrope,
        align_up_spec(total * 4, 8),
        align_up_spec((n + 1) * 4, 8),
        align_up_spec(n * 4, 8),
    );
}

proof fn lemma_offsets(n: int, total: int, use_mrope: bool, p: int, c: int, k: int)
    requires
        0 <= n,
        0 <= total,
        total * 4 <= p,
        p % 8 == 0,
        (n + 1) * 4 <= c,
        c % 8 == 0,
        n * 4 <= k,
    ensures
        ({
            let slots = if use_mrope {
                3 * p
            } else {
                p
            };
            let cu = slots + total * 8 + n * 8 + n * 8;
            &&& slots % 8 == 0
            &&& (slots + total * 8) % 8 == 0
            &&& (slots + total * 8 + n * 8) % 8 == 0
            &&& cu % 8 == 0
            &&& (cu + c) % 8 == 0
            &&& 0 <= p <= slots <= cu
        }),
{
}

/// Compute the offsets of the stacked arrays.
pub fn staged_layout(n: usize, total: usize, use_mrope: bool) -> (r: StagedLayout)
    requires
        staged_bytes_spec(n as int, total as int, use_mrope) <= usize::MAX,
    ensures
        r == staged_layout_spec(n as int, total as int, use_mrope),
        r.staged_bytes == staged_bytes_spec(n as int, total as int, use_mrope),
{
    proof {
        lemma_align_up(total * 4, 8);
        lemma_align_up((n + 1) * 4, 8);
        lemma_align_up(n * 4, 8);
        lemma_words_align(total as int);
    }
    let pos_aligned: usize = align_words(total);
    let positions_h: usize = if use_mrope {
        pos_aligned
    } else {
        0
    };
    let positions_w: usize = if use_mrope {
        positions_h + pos_aligned
    } else {
        0
    };
    let slots: usize = positions_w + pos_aligned;
    let block_ptrs: usize = slots + total * 8;
    let seq_len_ptrs: usize = block_ptrs + n * 8;
    let cu_seqlens: usize = seq_len_ptrs + n * 8;
    let kv_lens: usize = cu_seqlens + align_words(n + 1);
    let staged_bytes: usize = kv_lens + align_words(n);
    StagedLayout {
        positions_h,
        positions_w,
        slots,
        block_ptrs,
        seq_len_ptrs,
        cu_seqlens,
        kv_lens,
        staged_bytes,
    }
}

proof fn lemma_words_align(n: int)
    requires
        0 <= n,
    ensures
        align_up_spec(n * 4, 8) == (n / 2 + n % 2) * 8,
{
}

/// Bytes of `n` 32-bit words, rounded up to eight.
fn align_words(n: usize) -> (r: usize)
    requires
        align_up_spec(n * 4, 8) <= usize::MAX,
    ensures
        r == align_up_spec(n * 4, 8),
{
    proof {
        lemma_words_align(n as int);
    }
    (n / 2 + n % 2) * 8
}

/// Positions of the first `n` streams, stacked.
pub open spec fn stacked_positions(infos: Seq<StreamStage>, n: int) -> Seq<u32>
    decreases n,
{
    if n <= 0 {
        Seq::empty()
    } else {
        stacked_positions(infos, n - 1) + positions_spec(
            infos[n - 1].proc_start as int,
            infos[n - 1].proc_count as nat,
        )
    }
}

/// Cache slots of one stream.
pub open spec fn stream_slots(info: StreamStage, seq: SequenceState, bs: int, dummy: u32) -> Seq<i64> {
    Seq::new(
        info.proc_count as nat,
        |i: int| seq_slot_spec(seq, info.proc_start + i, bs, dummy) as i64,
    )
}

/// Cache slots of the first `n` streams, stacked.
pub open spec fn stacked_slots(
    infos: Seq<StreamStage>,
    seqs: Seq<&SequenceState>,
    n: int,
    bs: int,
    dummy: u32,
) -> Seq<i64>
    decreases n,
{
    if n <= 0 {
        Seq::empty()
    } else {
        stacked_slots(infos, seqs, n - 1, bs, dummy) + stream_slots(
            infos[n - 1],
            *seqs[n - 1],
            bs,
            dummy,
        )
    }
}

/// The metadata of a batched pass.
pub struct StagedBatch {
    pub layout: StagedLayout,
    /// The temporal stream; with three-axis positions the other two streams repeat it.
    pub positions: Vec<u32>,
    pub slots: Vec<i64>,
    pub block_table_ptrs: Vec<u64>,
    pub seq_len_ptrs: Vec<u64>,
    /// Prefix sums of the token counts.
    pub cu_seqlens: Vec<i32>,
    /// Per-stream KV extent, so a shorter stream is not given a longer one's causal bound.
    pub kv_lens: Vec<i32>,
    pub total_tokens: usize,
    /// The largest token count.
    pub chunk_len: usize,
    pub max_blocks: u32,
}

/// Why a batch was not staged.
#[derive(Clone, Copy, Debug, PartialEq, Eq, Structural)]
pub enum StageError {
    /// There is no stream.
    Empty,
    /// The arrays do not fit the scratch buffer.
    ScratchTooSmall { staged_bytes: usize },
    /// The arrays do not fit the host staging.
    StagingTooSmall { staged_bytes: usize },
}

/// Whether `m` is the largest token count.
pub open spec fn is_max_count(infos: Seq<StreamStage>, m: int) -> bool {
    &&& forall|i: int| 0 <= i < infos.len() ==> (#[trigger] infos[i]).proc_count <= m
    &&& infos.len() > 0 ==> exists|i: int|
        0 <= i < infos.len() && (#[trigger] infos[i]).proc_count == m
}

/// Whether `m` is the largest block count, as uploaded.
pub open spec fn is_max_blocks(infos: Seq<StreamStage>, m: u32) -> bool {
    &&& forall|i: int| 0 <= i < infos.len() ==> (#[trigger] infos[i]).num_blocks as u32 <= m
    &&& m == 0 || exists|i: int|
        0 <= i < infos.len() && (#[trigger] infos[i]).num_blocks as u32 == m
}

/// Build the metadata of a batched pass for the scratch buffer from byte `scratch_offset` on.
pub fn stage_batched(
    infos: &Vec<StreamStage>,
    seqs: &Vec<&SequenceState>,
    use_mrope: bool,
    scratch_offset: usize,
    scratch_cap: usize,
    staging_bytes: usize,
    bs: usize,
    dummy_block: u32,
) -> (r: Result<StagedBatch, StageError>)
    requires
        0 < bs <= MAX_BLOCK_SIZE,
        seqs@.len() == infos@.len(),
        forall|i: int|
            0 <= i < infos@.len() ==> (#[trigger] infos@[i]).proc_start + infos@[i].proc_count
                <= usize::MAX,
        stacked_tokens(infos@, infos@.len() as int) <= i32::MAX,
        scratch_offset + staged_bytes_spec(
            infos@.len() as int,
            stacked_tokens(infos@, infos@.len() as int),
            use_mrope,
        ) <= usize::MAX,
    ensures
        ({
            let n = infos@.len() as int;
            let total = stacked_tokens(infos@, n);
            let bytes = staged_bytes_spec(n, total, use_mrope);
            &&& r is Ok <==> n > 0 && scratch_offset + bytes <= scratch_cap && bytes
                <= staging_bytes
            &&& r matches Err(e) ==> e == if n == 0 {
                StageError::Empty
            } else if scratch_offset + bytes > scratch_cap {
                (StageError::ScratchTooSmall { staged_bytes: bytes as usize })
            } else {
                (StageError::StagingTooSmall { staged_bytes: bytes as usize })
            }
            &&& r matches Ok(b) ==> {
                &&& b.layout == staged_layout_spec(n, total, use_mrope)
                &&& b.positions@ == stacked_positions(infos@, n)
                &&& b.slots@ == stacked_slots(infos@, seqs@, n, bs as int, dummy_block)
                &&& b.block_table_ptrs@ == Seq::new(
                    n as nat,
                    |i: int| infos@[i].block_table_dev.0,
                )
                &&& b.seq_len_ptrs@ == Seq::new(n as nat, |i: int| infos@[i].seq_len_dev.0)
                &&& b.cu_seqlens@ == Seq::new(
                    (n + 1) as nat,
                    |i: int| stacked_tokens(infos@, i) as i32,
                )
                &&& b.kv_lens@ == Seq::new(
                    n as nat,
                    |i: int| (infos@[i].proc_start + infos@[i].proc_count) as i32,
                )
                &&& b.total_tokens == total
                &&& is_max_count(infos@, b.chunk_len as int)
                &&& is_max_blocks(infos@, b.max_blocks)
            }
        }),
{
    let n: usize = infos.len();
    if n == 0 {
        return Err(StageError::Empty);
    }
    let (cu_seqlens, total_tokens): (Vec<i32>, usize) = prefix_sums(infos);
    proof {
        lemma_stacked_mono(infos@, 0, n as int);
    }
    let layout: StagedLayout = staged_layout(n, total_tokens, use_mrope);
    if scratch_offset + layout.staged_bytes > scratch_cap {
        return Err(StageError::ScratchTooSmall { staged_bytes: layout.staged_bytes });
    }
    if layout.staged_bytes > staging_bytes {
        return Err(StageError::StagingTooSmall { staged_bytes: layout.staged_bytes });
    }
    let (pos, slots): (Vec<u32>, Vec<i64>) = stack_rows(infos, seqs, bs, dummy_block);
    let (kv_lens, chunk_len, max_blocks): (Vec<i32>, usize, u32) = extents(infos);
    let mut bt_ptrs: Vec<u64> = Vec::new();
    let mut sl_ptrs: Vec<u64> = Vec::new();
    let mut i: usize = 0;
    while i < n
        invariant
            n == infos@.len(),
            i <= n,
            bt_ptrs@ == Seq::new(i as nat, |i: int| infos@[i].block_table_dev.0),
            sl_ptrs@ == Seq::new(i as nat, |i: int| infos@[i].seq_len_dev.0),
        decreases n - i,
    {
        bt_ptrs.push(infos[i].block_table_dev.0);
        sl_ptrs.push(infos[i].seq_len_dev.0);
        i = i + 1;
    }
    Ok(
        StagedBatch {
            layout,
            positions: pos,
            slots,
            block_table_ptrs: bt_ptrs,
            seq_len_ptrs: sl_ptrs,
            cu_seqlens,
            kv_lens,
            total_tokens,
            chunk_len,
            max_blocks,
        },
    )
}

/// Prefix sums of the token counts, and their total.
fn prefix_sums(infos: &Vec<StreamStage>) -> (r: (Vec<i32>, usize))
    requires
        stacked_tokens(infos@, infos@.len() as int) <= i32::MAX,
    ensures
        r.0@ == Seq::new(infos@.len() + 1, |i: int| stacked_tokens(infos@, i) as i32),
        r.1 == stacked_tokens(infos@, infos@.len() as int),
{
    let mut cu: Vec<i32> = Vec::new();
    let mut acc: usize = 0;
    cu.push(0);
    let mut i: usize = 0;
    assert(cu@ =~= Seq::new(1, |i: int| stacked_tokens(infos@, i) as i32));
    while i < infos.len()
        invariant
            stacked_tokens(infos@, infos@.len() as int) <= i32::MAX,
            i <= infos@.len(),
            acc == stacked_tokens(infos@, i as int),
            acc <= i32::MAX,
            cu@ == Seq::new((i + 1) as nat, |i: int| stacked_tokens(infos@, i) as i32),
        decreases infos@.len() - i,
    {
        proof {
            lemma_stacked_mono(infos@, i + 1, infos@.len() as int);
        }
        acc = acc + infos[i].proc_count;
        cu.push(acc as i32);
        i = i + 1;
        assert(cu@ =~= Seq::new((i + 1) as nat, |i: int| stacked_tokens(infos@, i) as i32));
    }
    (cu, acc)
}

/// Positions and slots of all streams, stacked.
fn stack_rows(
    infos: &Vec<StreamStage>,
    seqs: &Vec<&SequenceState>,
    bs: usize,
    dummy_block: u32,
) -> (r: (Vec<u32>, Vec<i64>))
    requires
        0 < bs <= MAX_BLOCK_SIZE,
        seqs@.len() == infos@.len(),
        forall|i: int|
            0 <= i < infos@.len() ==> (#[trigger] infos@[i]).proc_start + infos@[i].proc_count
                <= usize::MAX,
    ensures
        r.0@ == stacked_positions(infos@, infos@.len() as int),
        r.1@ == stacked_slots(infos@, seqs@, infos@.len() as int, bs as int, dummy_block),
{
    let mut pos: Vec<u32> = Vec::new();
    let mut slots: Vec<i64> = Vec::new();
    let mut i: usize = 0;
    while i < infos.len()
        invariant
            0 < bs <= MAX_BLOCK_SIZE,
            seqs@.len() == infos@.len(),
            forall|i: int|
                0 <= i < infos@.len() ==> (#[trigger] infos@[i]).proc_start
                    + infos@[i].proc_count <= usize::MAX,
            i <= infos@.len(),
            pos@ == stacked_positions(infos@, i as int),
            slots@ == stacked_slots(infos@, seqs@, i as int, bs as int, dummy_block),
        decreases infos@.len() - i,
    {
        let info: StreamStage = infos[i];
        let seq: &SequenceState = seqs[i];
        assert(infos@[i as int].proc_start + infos@[i as int].proc_count <= usize::MAX);
        let mut p: Vec<u32> = positions(info.proc_start, info.proc_count);
        pos.append(&mut p);
        let mut s: Vec<i64> = seq_slots(seq, info.proc_start, info.proc_count, bs, dummy_block);
        assert(s@ =~= stream_slots(infos@[i as int], *seqs@[i as int], bs as int, dummy_block));
        slots.append(&mut s);
        i = i + 1;
    }
    (pos, slots)
}

/// Each stream's KV extent, the largest token count and the largest block count.
fn extents(infos: &Vec<StreamStage>) -> (r: (Vec<i32>, usize, u32))
    requires
        forall|i: int|
            0 <= i < infos@.len() ==> (#[trigger] infos@[i]).proc_start + infos@[i].proc_count
                <= usize::MAX,
    ensures
        r.0@ == Seq::new(
            infos@.len(),
            |i: int| (infos@[i].proc_start + infos@[i].proc_count) as i32,
        ),
        is_max_count(infos@, r.1 as int),
        is_max_blocks(infos@, r.2),
{
    let mut kv: Vec<i32> = Vec::new();
    let mut chunk_len: usize = 0;
    let mut max_blocks: u32 = 0;
    let mut i: usize = 0;
    while i < infos.len()
        invariant
            forall|i: int|
                0 <= i < infos@.len() ==> (#[trigger] infos@[i]).proc_start
                    + infos@[i].proc_count <= usize::MAX,
            i <= infos@.len(),
            kv@ == Seq::new(
                i as nat,
                |i: int| (infos@[i].proc_start + infos@[i].proc_count) as i32,
            ),
            is_max_count(infos@.subrange(0, i as int), chunk_len as int),
            is_max_blocks(infos@.subrange(0, i as int), max_blocks),
            i == 0 ==> chunk_len == 0,
        decreases infos@.len() - i,
    {
        let info: StreamStage = infos[i];
        assert(infos@[i as int].proc_start + infos@[i as int].proc_count <= usize::MAX);
        let ghost before = infos@.subrange(0, i as int);
        let ghost after = infos@.subrange(0, i + 1);
        let ghost len0 = chunk_len;
        let ghost blocks0 = max_blocks;
        if info.proc_count > chunk_len {
            chunk_len = info.proc_count;
        }
        kv.push((info.proc_start + info.proc_count) as i32);
        let blocks: u32 = info.num_blocks as u32;
        if blocks > max_blocks {
            max_blocks = blocks;
        }
        proof {
            assert(after[i as int] == info);
            assert(forall|j: int| 0 <= j < i ==> #[trigger] after[j] == before[j]);
            if info.proc_count <= len0 && i > 0 {
                let w = choose|w: int|
                    0 <= w < before.len() && (#[trigger] before[w]).proc_count == len0;
                assert(after[w].proc_count == chunk_len);
            }
            if blocks <= blocks0 && blocks0 != 0 {
                let w = choose|w: int|
                    0 <= w < before.len() && (#[trigger] before[w]).num_blocks as u32 == blocks0;
                assert(after[w].num_blocks as u32 == max_blocks);
            }
        }
        i = i + 1;
    }
    assert(infos@.subrange(0, i as int) =~= infos@);
    (kv, chunk_len, max_blocks)
}

/// Token `t` of stream `i` stands at place `stacked_tokens(infos, i) + t` of the stack, with its
/// own position, whatever the other streams' lengths are.
pub proof fn stacked_place(infos: Seq<StreamStage>, n: int, i: int, t: int)
    requires
        0 <= i < n <= infos.len(),
        0 <= t < infos[i].proc_count,
    ensures
        stacked_positions(infos, n).len() == stacked_tokens(infos, n),
        0 <= stacked_tokens(infos, i) + t < stacked_tokens(infos, n),
        stacked_positions(infos, n)[stacked_tokens(infos, i) + t] == (infos[i].proc_start
            + t) as u32,
    decreases n,
{
    lemma_stacked_len(infos, n);
    lemma_stacked_len(infos, n - 1);
    lemma_stacked_mono(infos, 0, i);
    lemma_stacked_mono(infos, i + 1, n);
    assert(stacked_tokens(infos, i + 1) == stacked_tokens(infos, i) + infos[i].proc_count);
    if i < n - 1 {
        stacked_place(infos, n - 1, i, t);
    }
}

proof fn lemma_stacked_len(infos: Seq<StreamStage>, n: int)
    requires
        0 <= n <= infos.len(),
    ensures
        stacked_positions(infos, n).len() == stacked_tokens(infos, n),
    decreases n,
{
    if n > 0 {
        lemma_stacked_len(infos, n - 1);
    }
}

proof fn lemma_slot_place(
    infos: Seq<StreamStage>,
    seqs: Seq<&SequenceState>,
    n: int,
    bs: int,
    dummy: u32,
    i: int,
    t: int,
)
    requires
        0 <= i < n <= infos.len(),
        0 <= t < infos[i].proc_count,
    ensures
        stacked_slots(infos, seqs, n, bs, dummy).len() == stacked_tokens(infos, n),
        0 <= stacked_tokens(infos, i) + t < stacked_tokens(infos, n),
        stacked_slots(infos, seqs, n, bs, dummy)[stacked_tokens(infos, i) + t] == seq_slot_spec(
            *seqs[i],
            infos[i].proc_start + t,
            bs,
            dummy,
        ) as i64,
    decreases n,
{
    lemma_slots_len(infos, seqs, n, bs, dummy);
    lemma_slots_len(infos, seqs, n - 1, bs, dummy);
    lemma_stacked_mono(infos, 0, i);
    lemma_stacked_mono(infos, i + 1, n);
    assert(stacked_tokens(infos, i + 1) == stacked_tokens(infos, i) + infos[i].proc_count);
    if i < n - 1 {
        lemma_slot_place(infos, seqs, n - 1, bs, dummy, i, t);
    }
}

proof fn lemma_slots_len(
    infos: Seq<StreamStage>,
    seqs: Seq<&SequenceState>,
    n: int,
    bs: int,
    dummy: u32,
)
    requires
        0 <= n <= infos.len(),
    ensures
        stacked_slots(infos, seqs, n, bs, dummy).len() == stacked_tokens(infos, n),
    decreases n,
{
    if n > 0 {
        lemma_slots_len(infos, seqs, n - 1, bs, dummy);
    }
}

/// The stack is cut into the streams in order: the prefix sums start at zero, grow by each
/// stream's own token count, and end at the number of stacked tokens, positions and slots.
pub proof fn streams_are_stacked_in_order(
    infos: &Vec<StreamStage>,
    seqs: &Vec<&SequenceState>,
    use_mrope: bool,
    scratch_offset: usize,
    scratch_cap: usize,
    staging_bytes: usize,
    bs: usize,
    dummy_block: u32,
    r: Result<StagedBatch, StageError>,
    i: int,
)
    requires
        call_ensures(
            stage_batched,
            (
                infos,
                seqs,
                use_mrope,
                scratch_offset,
                scratch_cap,
                staging_bytes,
                bs,
                dummy_block,
            ),
            r,
        ),
        r is Ok,
        r->Ok_0.total_tokens <= i32::MAX,
        0 <= i < infos@.len(),
    ensures
        ({
            let b = r->Ok_0;
            let n = infos@.len() as int;
            &&& b.cu_seqlens@.len() == n + 1
            &&& b.cu_seqlens@[0] == 0
            &&& b.cu_seqlens@[i + 1] == b.cu_seqlens@[i] + infos@[i].proc_count
            &&& 0 <= b.cu_seqlens@[i] <= b.cu_seqlens@[n]
            &&& b.cu_seqlens@[n] == b.total_tokens
            &&& b.positions@.len() == b.total_tokens
            &&& b.slots@.len() == b.total_tokens
        }),
{
    let n = infos@.len() as int;
    lemma_stacked_mono(infos@, 0, i);
    lemma_stacked_mono(infos@, i, i + 1);
    lemma_stacked_mono(infos@, i + 1, n);
    lemma_stacked_len(infos@, n);
    lemma_slots_len(infos@, seqs@, n, bs as int, dummy_block);
}

/// Every stacked token is staged for its own stream: token `t` of stream `i` stands at the
/// stream's prefix sum plus `t`, has position `proc_start + t`, and its key and value go to the
/// slot of that position in the stream's own block, or in the dummy block when the stream has no
/// block there.
pub proof fn staged_tokens_belong_to_their_stream(
    infos: &Vec<StreamStage>,
    seqs: &Vec<&SequenceState>,
    use_mrope: bool,
    scratch_offset: usize,
    scratch_cap: usize,
    staging_bytes: usize,
    bs: usize,
    dummy_block: u32,
    r: Result<StagedBatch, StageError>,
    i: int,
    t: int,
)
    requires
        call_ensures(
            stage_batched,
            (
                infos,
                seqs,
                use_mrope,
                scratch_offset,
                scratch_cap,
                staging_bytes,
                bs,
                dummy_block,
            ),
            r,
        ),
        r is Ok,
        r->Ok_0.total_tokens <= i32::MAX,
        0 < bs <= MAX_BLOCK_SIZE,
        0 <= i < infos@.len(),
        0 <= t < infos@[i].proc_count,
    ensures
        ({
            let b = r->Ok_0;
            let pos = infos@[i].proc_start + t;
            let table = seqs@[i].block_table@;
            let seen = seqs@[i].disk_block_ids@.len() as int;
            let first = if seen > table.len() {
                seen - table.len()
            } else {
                0
            };
            let at = pos / bs as int - first;
            let block = if 0 <= at < table.len() {
                table[at]
            } else {
                dummy_block
            };
            let place = b.cu_seqlens@[i] + t;
            &&& 0 <= place < b.cu_seqlens@[i + 1]
            &&& place < b.positions@.len()
            &&& place < b.slots@.len()
            &&& b.positions@[place] == pos as u32
            &&& b.slots@[place] == block as int * bs as int + pos % bs as int
        }),
{
    let n = infos@.len() as int;
    lemma_stacked_mono(infos@, 0, i);
    lemma_stacked_mono(infos@, i, i + 1);
    lemma_stacked_mono(infos@, i + 1, n);
    stacked_place(infos@, n, i, t);
    lemma_slot_place(infos@, seqs@, n, bs as int, dummy_block, i, t);
    lemma_slot_fits(*seqs@[i], infos@[i].proc_start + t, bs as int, dummy_block);
}

/// Streams never write over each other's cache: tokens of two streams whose block tables share
/// no block, each inside its own table, get different slots.
pub proof fn disjoint_tables_get_disjoint_slots(
    infos: &Vec<StreamStage>,
    seqs: &Vec<&SequenceState>,
    use_mrope: bool,
    scratch_offset: usize,
    scratch_cap: usize,
    staging_bytes: usize,
    bs: usize,
    dummy_block: u32,
    r: Result<StagedBatch, StageError>,
    i: int,
    t: int,
    j: int,
    u: int,
)
    requires
        call_ensures(
            stage_batched,
            (
                infos,
                seqs,
                use_mrope,
                scratch_offset,
                scratch_cap,
                staging_bytes,
                bs,
                dummy_block,
            ),
            r,
        ),
        r is Ok,
        r->Ok_0.total_tokens <= i32::MAX,
        0 < bs <= MAX_BLOCK_SIZE,
        0 <= i < infos@.len(),
        0 <= j < infos@.len(),
        i != j,
        0 <= t < infos@[i].proc_count,
        0 <= u < infos@[j].proc_count,
        seqs@[i].disk_block_ids@.len() == 0,
        seqs@[j].disk_block_ids@.len() == 0,
        (infos@[i].proc_start + t) / (bs as int) < seqs@[i].block_table@.len(),
        (infos@[j].proc_start + u) / (bs as int) < seqs@[j].block_table@.len(),
        forall|a: int, b: int|
            0 <= a < seqs@[i].block_table@.len() && 0 <= b < seqs@[j].block_table@.len()
                ==> #[trigger] seqs@[i].block_table@[a] != #[trigger] seqs@[j].block_table@[b],
    ensures
        r->Ok_0.slots@[r->Ok_0.cu_seqlens@[i] + t] != r->Ok_0.slots@[r->Ok_0.cu_seqlens@[j] + u],
{
    staged_tokens_belong_to_their_stream(
        infos,
        seqs,
        use_mrope,
        scratch_offset,
        scratch_cap,
        staging_bytes,
        bs,
        dummy_block,
        r,
        i,
        t,
    );
    staged_tokens_belong_to_their_stream(
        infos,
        seqs,
        use_mrope,
        scratch_offset,
        scratch_cap,
        staging_bytes,
        bs,
        dummy_block,
        r,
        j,
        u,
    );
    let p = infos@[i].proc_start + t;
    let q = infos@[j].proc_start + u;
    let b1 = seqs@[i].block_table@[p / bs as int];
    let b2 = seqs@[j].block_table@[q / bs as int];
    assert(p / bs as int >= 0 && q / bs as int >= 0) by (nonlinear_arith)
        requires
            p >= 0,
            q >= 0,
            bs > 0,
    ;
    assert(b1 != b2);
    if b1 as int * bs as int + p % bs as int == b2 as int * bs as int + q % bs as int {
        crate::kv_rows::kv_slot_is_injective(b1, p, b2, q, bs as int);
    }
}

/// Each stream's device tables and KV extent are staged at the stream's own place, and the two
/// maxima are the largest token count and block count of any stream.
pub proof fn staged_streams_keep_their_tables(
    infos: &Vec<StreamStage>,
    seqs: &Vec<&SequenceState>,
    use_mrope: bool,
    scratch_offset: usize,
    scratch_cap: usize,
    staging_bytes: usize,
    bs: usize,
    dummy_block: u32,
    r: Result<StagedBatch, StageError>,
    i: int,
)
    requires
        call_ensures(
            stage_batched,
            (
                infos,
                seqs,
                use_mrope,
                scratch_offset,
                scratch_cap,
                staging_bytes,
                bs,
                dummy_block,
            ),
            r,
        ),
        r is Ok,
        0 <= i < infos@.len(),
    ensures
        ({
            let b = r->Ok_0;
            &&& b.block_table_ptrs@.len() == infos@.len()
            &&& b.seq_len_ptrs@.len() == infos@.len()
            &&& b.kv_lens@.len() == infos@.len()
            &&& b.block_table_ptrs@[i] == infos@[i].block_table_dev.0
            &&& b.seq_len_ptrs@[i] == infos@[i].seq_len_dev.0
            &&& b.kv_lens@[i] == (infos@[i].proc_start + infos@[i].proc_count) as i32
            &&& infos@[i].proc_count <= b.chunk_len
            &&& infos@[i].num_blocks as u32 <= b.max_blocks
            &&& exists|j: int|
                0 <= j < infos@.len() && (#[trigger] infos@[j]).proc_count == b.chunk_len
            &&& exists|j: int|
                0 <= j < infos@.len() && (#[trigger] infos@[j]).num_blocks as u32 == b.max_blocks
        }),
{
    let b = r->Ok_0;
    if b.max_blocks == 0 {
        assert(infos@[i].num_blocks as u32 == b.max_blocks);
    }
}

/// A batch is staged exactly when there is a stream and its bytes fit both buffers; the error
/// says which did not, the scratch buffer first.
pub proof fn staged_batches_fit_their_buffers(
    infos: &Vec<StreamStage>,
    seqs: &Vec<&SequenceState>,
    use_mrope: bool,
    scratch_offset: usize,
    scratch_cap: usize,
    staging_bytes: usize,
    bs: usize,
    dummy_block: u32,
    r: Result<StagedBatch, StageError>,
)
    requires
        call_ensures(
            stage_batched,
            (
                infos,
                seqs,
                use_mrope,
                scratch_offset,
                scratch_cap,
                staging_bytes,
                bs,
                dummy_block,
            ),
            r,
        ),
        staged_bytes_spec(
            infos@.len() as int,
            stacked_tokens(infos@, infos@.len() as int),
            use_mrope,
        ) <= usize::MAX,
    ensures
        r is Ok ==> infos@.len() > 0 && scratch_offset + r->Ok_0.layout.staged_bytes
            <= scratch_cap && r->Ok_0.layout.staged_bytes <= staging_bytes,
        r matches Err(e) ==> match e {
            StageError::Empty => infos@.len() == 0,
            StageError::ScratchTooSmall { staged_bytes } => infos@.len() > 0 && scratch_offset
                + staged_bytes > scratch_cap,
            StageError::StagingTooSmall { staged_bytes } => infos@.len() > 0 && scratch_offset
                + staged_bytes <= scratch_cap && staged_bytes > staging_bytes,
        },
{
    assert(infos.len() == infos@.len());
    lemma_stacked_mono(infos@, 0, infos@.len() as int);
}

/// The arrays lie one after another without gap or overlap beyond the rounding to eight bytes:
/// one stream of positions, or three, then eight bytes per slot, two words of eight bytes per
/// stream, the prefix sums and the extents.
pub proof fn arrays_follow_each_other(n: usize, total: usize, use_mrope: bool, l: StagedLayout)
    requires
        call_ensures(staged_layout, (n, total, use_mrope), l),
        staged_bytes_spec(n as int, total as int, use_mrope) <= usize::MAX,
    ensures
        use_mrope ==> {
            &&& total * 4 <= l.positions_h < total * 4 + 8
            &&& l.positions_h % 8 == 0
            &&& l.positions_w == 2 * l.positions_h
            &&& l.slots == 3 * l.positions_h
        },
        !use_mrope ==> {
            &&& l.positions_h == 0
            &&& l.positions_w == 0
            &&& total * 4 <= l.slots < total * 4 + 8
            &&& l.slots % 8 == 0
        },
        l.block_ptrs == l.slots + total * 8,
        l.seq_len_ptrs == l.block_ptrs + n * 8,
        l.cu_seqlens == l.seq_len_ptrs + n * 8,
        (n + 1) * 4 <= l.kv_lens - l.cu_seqlens < (n + 1) * 4 + 8,
        (l.kv_lens - l.cu_seqlens) % 8 == 0,
        n * 4 <= l.staged_bytes - l.kv_lens < n * 4 + 8,
        (l.staged_bytes - l.kv_lens) % 8 == 0,
{
    lemma_align_up(total * 4, 8);
    lemma_align_up((n + 1) * 4, 8);
    lemma_align_up(n * 4, 8);
    lemma_layout_values(
        n as int,
        total as int,
        use_mrope,
        align_up_spec(total * 4, 8),
        align_up_spec((n + 1) * 4, 8),
        align_up_spec(n * 4, 8),
        l,
    );
}

proof fn lemma_layout_values(
    n: int,
    total: int,
    use_mrope: bool,
    p: int,
    c: int,
    k: int,
    l: StagedLayout,
)
    requires
        0 <= n,
        0 <= total,
        p == align_up_spec(total * 4, 8),
        c == align_up_spec((n + 1) * 4, 8),
        k == align_up_spec(n * 4, 8),
        0 <= p,
        0 <= c,
        0 <= k,
        l == staged_layout_spec(n, total, use_mrope),
        staged_bytes_spec(n, total, use_mrope) <= usize::MAX,
    ensures
        use_mrope ==> l.positions_h == p && l.positions_w == 2 * p && l.slots == 3 * p,
        !use_mrope ==> l.positions_h == 0 && l.positions_w == 0 && l.slots == p,
        l.block_ptrs == l.slots + total * 8,
        l.seq_len_ptrs == l.block_ptrs + n * 8,
        l.cu_seqlens == l.seq_len_ptrs + n * 8,
        l.kv_lens == l.cu_seqlens + c,
        l.staged_bytes == l.kv_lens + k,
{
}

} // verus!
