//! Prefill of a whole prompt in two phases: the recurrent layers run their projections chunk by
//! chunk, one recurrence over the uncached range and chunked post-processing, while attention
//! layers prefill the range in one call.

use vstd::prelude::*;

use crate::align::{align_up, align_up_spec, lemma_align_up};
use crate::batch::prefill_recorded;
use crate::chunks::{chunks, chunks_from, Chunk};
use crate::kv_rows::{
    lemma_slot_fits, positions, positions_spec, seq_slot_spec, seq_slots, MAX_BLOCK_SIZE,
};
use crate::prefix_lookup::{push_words, Restore};
use crate::prefix_match::PrefixMatch;
use crate::prefix_reuse::{reused_prefix_tokens, reused_spec};
use crate::sequence_state::SequenceState;
use crate::upload_meta::{check_field, field_error, MetaField, PackError};
use crate::verify_single::{lemma_row_fits, ROW_ELEM_BYTES};

verus! {

/// How a whole prompt is prefilled.
pub enum TwophaseRoute {
    /// There is no prompt.
    Empty,
    /// The prompt exceeds the hidden-row arena: one chunked prefill call per chunk, in order.
    Chunked { chunks: Vec<Chunk> },
    /// No recurrence buffers, or too short for the prompt: one chunked prefill call.
    WholeChunk,
    TwoPhase,
}

/// How a prompt of `total_len` tokens is prefilled.
pub fn twophase_route(
    total_len: usize,
    arena_cap: usize,
    chunk_size: usize,
    gdn_null: bool,
    gdn_max_len: usize,
) -> (r: TwophaseRoute)
    requires
        total_len > arena_cap ==> chunk_size > 0,
    ensures
        (r is Empty) == (total_len == 0),
        (r is Chunked) == (total_len > 0 && total_len > arena_cap),
        (r is WholeChunk) == (0 < total_len <= arena_cap && (gdn_null || total_len > gdn_max_len)),
        (r is TwoPhase) == (0 < total_len <= arena_cap && !gdn_null && total_len <= gdn_max_len),
        r matches TwophaseRoute::Chunked { chunks: c } ==> c@ == chunks_from(
            0,
            total_len as int,
            chunk_size as int,
        ),
{
    if total_len == 0 {
        return TwophaseRoute::Empty;
    }
    if total_len > arena_cap {
        return TwophaseRoute::Chunked { chunks: chunks(total_len, chunk_size) };
    }
    if gdn_null || total_len > gdn_max_len {
        return TwophaseRoute::WholeChunk;
    }
    TwophaseRoute::TwoPhase
}

/// Enter a match into the sequence: the counts, the matched tokens, its blocks and its disk ids.
pub fn twophase_adopt(seq: &mut SequenceState, tokens: &[u32], m: &PrefixMatch)
    ensures
        *final(seq) == (SequenceState {
            cached_prefix_tokens: m.matched_tokens,
            cached_prefix_blocks: m.matched_blocks@.len() as usize,
            prompt_len: tokens@.len() as usize,
            prefix_ref_tokens: final(seq).prefix_ref_tokens,
            block_table: final(seq).block_table,
            disk_block_ids: final(seq).disk_block_ids,
            ..*old(seq)
        }),
        final(seq).prefix_ref_tokens@ == if m.matched_tokens <= tokens@.len() {
            tokens@.subrange(0, m.matched_tokens as int)
        } else {
            tokens@
        },
        final(seq).block_table@ == old(seq).block_table@ + m.matched_blocks@,
        final(seq).disk_block_ids@ == old(seq).disk_block_ids@ + m.matched_disk_block_ids@,
{
    seq.cached_prefix_tokens = m.matched_tokens;
    seq.cached_prefix_blocks = m.matched_blocks.len();
    seq.prompt_len = tokens.len();
    let mut refs: Vec<u32> = Vec::new();
    while refs.len() < m.matched_tokens && refs.len() < tokens.len()
        invariant
            refs@.len() <= m.matched_tokens,
            refs@.len() <= tokens@.len(),
            refs@ == tokens@.subrange(0, refs@.len() as int),
        decreases tokens@.len() - refs@.len(),
    {
        let token: u32 = tokens[refs.len()];
        refs.push(token);
        assert(refs@ =~= tokens@.subrange(0, refs@.len() as int));
    }
    assert(tokens@.subrange(0, tokens@.len() as int) =~= tokens@);
    seq.prefix_ref_tokens = refs;
    push_words(&mut seq.block_table, &m.matched_blocks);
    push_words(&mut seq.disk_block_ids, &m.matched_disk_block_ids);
}

/// The snapshot a two-phase prefill restores: the match's, if it has depth, the match lies inside
/// the prompt, its session admits the sequence, and it carries the auxiliary state the model
/// needs.
pub fn twophase_restore(
    eff_snapshot: Option<usize>,
    depth: usize,
    matched: usize,
    total_len: usize,
    session_ok: bool,
    needs_aux: bool,
    has_aux: bool,
) -> (r: Option<Restore>)
    ensures
        r == if eff_snapshot is Some && depth > 0 && matched <= total_len && session_ok && (
        !needs_aux || has_aux) {
            Some(Restore { snapshot: eff_snapshot->0, depth })
        } else {
            None
        },
{
    match eff_snapshot {
        Some(snapshot) => if depth > 0 && matched <= total_len && session_ok && (!needs_aux
            || has_aux) {
            Some(Restore { snapshot, depth })
        } else {
            None
        },
        None => None,
    }
}

/// Where a two-phase prefill resumes: at the match when the whole prompt matched and the snapshot
/// covers it, else at the snapshot, so that the recurrent state never falls behind the KV.
pub open spec fn twophase_resume_at(restore: Option<Restore>, matched: usize, total_len: usize) -> usize {
    match restore {
        Some(r) => if matched >= total_len && r.depth >= matched {
            matched
        } else {
            r.depth
        },
        None => 0,
    }
}

/// Record where the prefill resumes, after the restore, if any, has been made.
pub fn twophase_resume(
    seq: &mut SequenceState,
    restore: Option<Restore>,
    matched: usize,
    total_len: usize,
) -> (r: (usize, bool))
    ensures
        r.0 == twophase_resume_at(restore, matched, total_len),
        r.1 == restore is Some,
        *final(seq) == (SequenceState {
            marconi_skip_to: r.0,
            reused_prefix_tokens: reused_spec(matched as int, r.0 as int, r.1) as usize,
            ..*old(seq)
        }),
{
    let (kv_write_start, marconi_skip): (usize, bool) = match restore {
        Some(s) => if matched >= total_len && s.depth >= matched {
            (matched, true)
        } else {
            (s.depth, true)
        },
        None => (0, false),
    };
    seq.marconi_skip_to = kv_write_start;
    seq.reused_prefix_tokens = reused_prefix_tokens(matched, kv_write_start, marconi_skip);
    (kv_write_start, marconi_skip)
}

/// The processed range of a two-phase prefill: from the resume point to the prompt's end.
pub fn twophase_range(total_len: usize, kv_write_start: usize, marconi_skip: bool) -> (r: (usize, usize))
    requires
        marconi_skip ==> kv_write_start <= total_len,
    ensures
        r.0 == if marconi_skip {
            kv_write_start
        } else {
            0
        },
        r.0 + r.1 == total_len,
{
    if marconi_skip && kv_write_start > 0 {
        (kv_write_start, total_len - kv_write_start)
    } else {
        (0, total_len)
    }
}

/// The last logical block a prompt needs.
pub fn last_block(total_len: usize, bs: usize) -> (r: usize)
    requires
        total_len > 0,
        bs > 0,
    ensures
        r == (total_len - 1) / bs as int,
{
    (total_len - 1) / bs
}

/// Placement of the metadata in the scratch buffer.
#[derive(Clone, Copy, Debug, PartialEq, Eq, Structural)]
pub struct TwophaseLayout {
    /// Offset of the metadata: after the expert-routing staging.
    pub meta_offset: usize,
    /// Offset of the slots from the metadata.
    pub slot_offset: usize,
    /// Whether earlier KV is read through the block table.
    pub needs_paged: bool,
}

/// Placement of the metadata of `proc_count` tokens: each field is aligned to eight bytes, after
/// the expert-routing staging of eight bytes per token and expert.
pub fn twophase_layout(proc_start: usize, proc_count: usize, experts_per_tok: usize) -> (r: TwophaseLayout)
    requires
        proc_count * experts_per_tok * 8 + 7 <= usize::MAX,
        proc_count * 4 + 7 <= usize::MAX,
    ensures
        r.meta_offset == align_up_spec(proc_count * experts_per_tok * 8, 8),
        r.slot_offset == align_up_spec(proc_count * 4, 8),
        r.needs_paged == (proc_start > 0),
        r.meta_offset % 8 == 0,
        r.slot_offset % 8 == 0,
        r.meta_offset >= proc_count * experts_per_tok * 8,
        r.slot_offset >= proc_count * 4,
{
    proof {
        let a = proc_count as int;
        let b = experts_per_tok as int;
        assert(0 <= a * b) by (nonlinear_arith)
            requires
                0 <= a,
                0 <= b,
        ;
        lemma_align_up(a * b * 8, 8);
        lemma_align_up(a * 4, 8);
    }
    let moe_bytes: usize = proc_count * experts_per_tok * 4 * 2;
    TwophaseLayout {
        meta_offset: align_up(moe_bytes, 8),
        slot_offset: align_up(proc_count * 4, 8),
        needs_paged: proc_start > 0,
    }
}

/// Host copies of the metadata of a two-phase prefill.
pub struct TwophaseMeta {
    pub positions: Vec<u32>,
    /// Absent when slots are filled from the block table on the device.
    pub slots: Option<Vec<i64>>,
}

/// The metadata of the processed range. A block outside the window is replaced by `dummy_block`.
pub fn twophase_meta(
    seq: &SequenceState,
    proc_start: usize,
    proc_count: usize,
    bs: usize,
    dummy_block: u32,
) -> (r: TwophaseMeta)
    requires
        0 < bs <= MAX_BLOCK_SIZE,
        proc_start + proc_count <= usize::MAX,
    ensures
        r.positions@ == positions_spec(proc_start as int, proc_count as nat),
        r.slots is Some == (proc_start == 0),
        r.slots matches Some(s) ==> s@ == Seq::new(
            proc_count as nat,
            |i: int| seq_slot_spec(*seq, proc_start + i, bs as int, dummy_block) as i64,
        ),
{
    let pos: Vec<u32> = positions(proc_start, proc_count);
    let slots: Option<Vec<i64>> = if proc_start == 0 {
        Some(seq_slots(seq, proc_start, proc_count, bs, dummy_block))
    } else {
        None
    };
    TwophaseMeta { positions: pos, slots }
}

/// What keeps the metadata from being packed into `capacity` bytes.
pub open spec fn twophase_pack_error(
    meta: TwophaseMeta,
    proc_count: int,
    slot_offset: int,
    capacity: int,
) -> Option<PackError> {
    let positions = field_error(
        MetaField::Positions,
        meta.positions@.len() as int,
        proc_count,
        4,
        0,
        capacity,
    );
    if positions is Some {
        positions
    } else if meta.slots is Some {
        field_error(
            MetaField::Slots,
            meta.slots->0@.len() as int,
            proc_count,
            8,
            slot_offset,
            capacity,
        )
    } else {
        None
    }
}

/// Check that the metadata packs into `capacity` bytes: the positions first, then the slots.
pub fn check_twophase_pack(
    meta: &TwophaseMeta,
    proc_count: usize,
    layout: &TwophaseLayout,
    capacity: usize,
) -> (r: Result<(), PackError>)
    requires
        proc_count * 8 <= usize::MAX,
    ensures
        r == match twophase_pack_error(
            *meta,
            proc_count as int,
            layout.slot_offset as int,
            capacity as int,
        ) {
            Some(e) => Err::<(), PackError>(e),
            None => Ok::<(), PackError>(()),
        },
{
    if let Some(e) = check_field(
        MetaField::Positions,
        meta.positions.len(),
        proc_count,
        4,
        0,
        capacity,
    ) {
        return Err(e);
    }
    if let Some(slots) = &meta.slots {
        if let Some(e) = check_field(
            MetaField::Slots,
            slots.len(),
            proc_count,
            8,
            layout.slot_offset,
            capacity,
        ) {
            return Err(e);
        }
    }
    Ok(())
}

/// How many of the processed positions replay KV that already lies in shared blocks: the layers
/// do not write those.
pub open spec fn kv_write_floor(
    marconi_skip: bool,
    cached_prefix_tokens: int,
    proc_start: int,
    proc_count: int,
    kv_write_start: int,
) -> int {
    if !marconi_skip {
        kv_write_start
    } else if cached_prefix_tokens <= proc_start {
        0
    } else if cached_prefix_tokens - proc_start < proc_count {
        cached_prefix_tokens - proc_start
    } else {
        proc_count
    }
}

/// The layers' KV write floor: after a restore, the processed positions whose KV already lies in
/// shared prefix-cache blocks, so that a recomputed value never overwrites one.
pub fn layer_kv_write_start(
    seq: &SequenceState,
    marconi_skip: bool,
    proc_start: usize,
    proc_count: usize,
    kv_write_start: usize,
) -> (r: usize)
    ensures
        r == kv_write_floor(
            marconi_skip,
            seq.cached_prefix_tokens as int,
            proc_start as int,
            proc_count as int,
            kv_write_start as int,
        ),
{
    if marconi_skip {
        let past: usize = seq.cached_prefix_tokens.saturating_sub(proc_start);
        if past < proc_count {
            past
        } else {
            proc_count
        }
    } else {
        kv_write_start
    }
}

/// A shared block is never rewritten: after a restore, every processed position the layers write
/// lies at or past the match.
pub proof fn shared_blocks_are_not_rewritten(
    cached_prefix_tokens: int,
    proc_start: int,
    proc_count: int,
    kv_write_start: int,
    i: int,
)
    requires
        0 <= proc_start,
        0 <= i < proc_count,
        i >= kv_write_floor(true, cached_prefix_tokens, proc_start, proc_count, kv_write_start),
    ensures
        proc_start + i >= cached_prefix_tokens,
{
}

/// One device step of the layers.
#[derive(Clone, Copy, Debug, PartialEq, Eq, Structural)]
pub enum TwophaseStep {
    /// Projections of a chunk, whose hidden rows start at byte `offset` and whose first token is
    /// at `pos`. `kv_write_start` is the range's first row that writes KV.
    Project {
        layer: usize,
        chunk_start: usize,
        chunk_len: usize,
        offset: usize,
        pos: usize,
        kv_write_start: usize,
    },
    /// One recurrence over the whole range of `rows` tokens.
    Recur { layer: usize, rows: usize },
    /// Post-processing of a chunk.
    Post { layer: usize, chunk_start: usize, chunk_len: usize, offset: usize },
    /// Attention over the whole range of `count` tokens from `start`; the first `kv_write_start`
    /// rows write no KV.
    Attention { layer: usize, start: usize, count: usize, kv_write_start: usize },
}

/// The tokens the layers process, and the first of their rows that writes KV.
#[derive(Clone, Copy, Debug, PartialEq, Eq, Structural)]
pub struct ProcSpan {
    pub start: usize,
    pub count: usize,
    pub kv_write_start: usize,
}

/// The projections of the chunks `c`.
pub open spec fn project_steps(layer: int, c: Seq<Chunk>, span: ProcSpan, h: int) -> Seq<TwophaseStep> {
    Seq::new(
        c.len(),
        |i: int|
            TwophaseStep::Project {
                layer: layer as usize,
                chunk_start: c[i].offset,
                chunk_len: c[i].len,
                offset: (c[i].offset * h * 2) as usize,
                pos: (span.start + c[i].offset) as usize,
                kv_write_start: span.kv_write_start,
            },
    )
}

/// The post-processing of the chunks `c`.
pub open spec fn post_steps(layer: int, c: Seq<Chunk>, h: int) -> Seq<TwophaseStep> {
    Seq::new(
        c.len(),
        |i: int|
            TwophaseStep::Post {
                layer: layer as usize,
                chunk_start: c[i].offset,
                chunk_len: c[i].len,
                offset: (c[i].offset * h * 2) as usize,
            },
    )
}

/// The steps of the first `n` layers.
pub open spec fn twophase_steps_spec(
    is_ssm: Seq<bool>,
    n: int,
    c: Seq<Chunk>,
    span: ProcSpan,
    h: int,
) -> Seq<TwophaseStep>
    decreases n,
{
    if n <= 0 {
        Seq::empty()
    } else {
        twophase_steps_spec(is_ssm, n - 1, c, span, h) + if is_ssm[n - 1] {
            project_steps(n - 1, c, span, h) + seq![
                TwophaseStep::Recur { layer: (n - 1) as usize, rows: span.count },
            ] + post_steps(n - 1, c, h)
        } else {
            seq![
                TwophaseStep::Attention {
                    layer: (n - 1) as usize,
                    start: span.start,
                    count: span.count,
                    kv_write_start: span.kv_write_start,
                },
            ]
        }
    }
}

/// Every chunk of a range lies inside it.
pub proof fn lemma_chunks_inside(offset: int, total: int, size: int)
    requires
        0 <= offset <= total <= usize::MAX,
        0 < size,
    ensures
        forall|i: int|
            0 <= i < chunks_from(offset, total, size).len() ==> (#[trigger] chunks_from(
                offset,
                total,
                size,
            )[i]).offset < total,
    decreases total - offset,
{
    if offset < total {
        let len = crate::chunks::chunk_len(offset, total, size);
        lemma_chunks_inside(offset + len, total, size);
        let c = chunks_from(offset, total, size);
        let rest = chunks_from(offset + len, total, size);
        assert forall|i: int| 0 <= i < c.len() implies (#[trigger] c[i]).offset < total by {
            if i > 0 {
                assert(c[i] == rest[i - 1]);
            }
        }
    }
}

/// The device steps of all layers over the processed range, chunked for the recurrent layers.
pub fn twophase_steps(
    is_ssm: &Vec<bool>,
    span: ProcSpan,
    chunk_size: usize,
    h: usize,
) -> (r: Vec<TwophaseStep>)
    requires
        chunk_size > 0,
        span.start + span.count <= usize::MAX,
        span.count * h * 2 <= usize::MAX,
    ensures
        r@ == twophase_steps_spec(
            is_ssm@,
            is_ssm@.len() as int,
            chunks_from(0, span.count as int, chunk_size as int),
            span,
            h as int,
        ),
{
    let list: Vec<Chunk> = chunks(span.count, chunk_size);
    proof {
        lemma_chunks_inside(0, span.count as int, chunk_size as int);
    }
    let mut steps: Vec<TwophaseStep> = Vec::new();
    let mut layer: usize = 0;
    while layer < is_ssm.len()
        invariant
            span.start + span.count <= usize::MAX,
            span.count * h * 2 <= usize::MAX,
            forall|i: int| 0 <= i < list@.len() ==> (#[trigger] list@[i]).offset < span.count,
            layer <= is_ssm@.len(),
            steps@ == twophase_steps_spec(
                is_ssm@,
                layer as int,
                list@,
                span,
                h as int,
            ),
        decreases is_ssm@.len() - layer,
    {
        let ghost steps0 = steps@;
        if is_ssm[layer] {
            let ghost pj = project_steps(layer as int, list@, span, h as int);
            let ghost ps = post_steps(layer as int, list@, h as int);
            let mut i: usize = 0;
            assert(steps@ =~= steps0 + pj.subrange(0, 0));
            while i < list.len()
                invariant
                    span.start + span.count <= usize::MAX,
                    span.count * h * 2 <= usize::MAX,
                    forall|i: int|
                        0 <= i < list@.len() ==> (#[trigger] list@[i]).offset < span.count,
                    i <= list@.len(),
                    pj == project_steps(layer as int, list@, span, h as int),
                    steps@ == steps0 + pj.subrange(0, i as int),
                decreases list@.len() - i,
            {
                let c: Chunk = list[i];
                proof {
                    lemma_row_fits(c.offset as int, span.count as int, h as int);
                }
                steps.push(
                    TwophaseStep::Project {
                        layer,
                        chunk_start: c.offset,
                        chunk_len: c.len,
                        offset: c.offset * h * ROW_ELEM_BYTES,
                        pos: span.start + c.offset,
                        kv_write_start: span.kv_write_start,
                    },
                );
                i = i + 1;
                assert(steps@ =~= steps0 + pj.subrange(0, i as int));
            }
            assert(pj.subrange(0, i as int) =~= pj);
            steps.push(TwophaseStep::Recur { layer, rows: span.count });
            let ghost steps1 = steps@;
            let mut j: usize = 0;
            assert(steps@ =~= steps1 + ps.subrange(0, 0));
            while j < list.len()
                invariant
                    span.count * h * 2 <= usize::MAX,
                    forall|i: int|
                        0 <= i < list@.len() ==> (#[trigger] list@[i]).offset < span.count,
                    j <= list@.len(),
                    ps == post_steps(layer as int, list@, h as int),
                    steps@ == steps1 + ps.subrange(0, j as int),
                decreases list@.len() - j,
            {
                let c: Chunk = list[j];
                proof {
                    lemma_row_fits(c.offset as int, span.count as int, h as int);
                }
                steps.push(
                    TwophaseStep::Post {
                        layer,
                        chunk_start: c.offset,
                        chunk_len: c.len,
                        offset: c.offset * h * ROW_ELEM_BYTES,
                    },
                );
                j = j + 1;
                assert(steps@ =~= steps1 + ps.subrange(0, j as int));
            }
            assert(ps.subrange(0, j as int) =~= ps);
            assert(steps@ =~= steps0 + (pj + seq![TwophaseStep::Recur { layer, rows: span.count }] + ps));
        } else {
            let step: TwophaseStep = TwophaseStep::Attention {
                layer,
                start: span.start,
                count: span.count,
                kv_write_start: span.kv_write_start,
            };
            steps.push(step);
            assert(steps@ =~= steps0 + seq![step]);
        }
        layer = layer + 1;
    }
    steps
}

/// Append the prompt and set the length.
fn append_prompt(seq: &mut SequenceState, tokens: &[u32])
    ensures
        final(seq).tokens@ == old(seq).tokens@ + tokens@,
        *final(seq) == (SequenceState {
            tokens: final(seq).tokens,
            seq_len: tokens@.len() as usize,
            ..*old(seq)
        }),
{
    let mut i: usize = 0;
    while i < tokens.len()
        invariant
            i <= tokens@.len(),
            seq.tokens@ == old(seq).tokens@ + tokens@.subrange(0, i as int),
            *seq == (SequenceState { tokens: seq.tokens, ..*old(seq) }),
        decreases tokens@.len() - i,
    {
        seq.tokens.push(tokens[i]);
        i = i + 1;
        assert(seq.tokens@ =~= old(seq).tokens@ + tokens@.subrange(0, i as int));
    }
    assert(tokens@.subrange(0, i as int) =~= tokens@);
    seq.seq_len = tokens.len();
}

/// Record a prefilled prompt, after the layers ran or after a full cache hit: its tokens are
/// appended, and the block it ends in counts as checkpointed, so the first decode checkpoint is
/// not taken there.
pub fn commit_prompt(seq: &mut SequenceState, tokens: &[u32], bs: usize)
    requires
        bs > 0,
    ensures
        prefill_recorded(
            *old(seq),
            tokens@,
            tokens@.len() as int,
            bs as int,
            *final(seq),
        ),
        final(seq).last_decode_ckpt_block == final(seq).tokens@.len() / bs as nat,
{
    append_prompt(seq, tokens);
    seq.last_decode_ckpt_block = seq.tokens.len() / bs;
}

/// A prompt longer than the arena is prefilled piece by piece, cut as any range is; one that fits
/// runs in two phases exactly when the recurrence buffers are there and hold it, and otherwise as
/// one chunk.
pub proof fn prompts_take_the_route_they_fit(
    total_len: usize,
    arena_cap: usize,
    chunk_size: usize,
    gdn_null: bool,
    gdn_max_len: usize,
    r: TwophaseRoute,
    pieces: Vec<Chunk>,
)
    requires
        call_ensures(
            twophase_route,
            (total_len, arena_cap, chunk_size, gdn_null, gdn_max_len),
            r,
        ),
        call_ensures(chunks, (total_len, chunk_size), pieces),
    ensures
        match r {
            TwophaseRoute::Empty => total_len == 0,
            TwophaseRoute::Chunked { chunks } => total_len > arena_cap && chunks@ == pieces@,
            TwophaseRoute::WholeChunk => 0 < total_len <= arena_cap && (gdn_null || gdn_max_len
                < total_len),
            TwophaseRoute::TwoPhase => 0 < total_len <= arena_cap && !gdn_null && total_len
                <= gdn_max_len,
        },
{
}

/// A match enters the sequence as it is: its counts, the matched tokens of the prompt, and its
/// blocks and disk ids behind those the sequence has.
pub proof fn twophase_matches_enter_the_sequence(
    seq: &mut SequenceState,
    tokens: &[u32],
    m: &PrefixMatch,
    i: int,
)
    requires
        call_ensures(twophase_adopt, (seq, tokens, m), ()),
        m.matched_tokens <= tokens@.len(),
    ensures
        final(seq).cached_prefix_tokens == m.matched_tokens,
        final(seq).cached_prefix_blocks == m.matched_blocks@.len() as usize,
        final(seq).prompt_len == tokens@.len() as usize,
        final(seq).prefix_ref_tokens@.len() == m.matched_tokens,
        0 <= i < m.matched_tokens ==> final(seq).prefix_ref_tokens@[i] == tokens@[i],
        final(seq).block_table@.len() == old(seq).block_table@.len() + m.matched_blocks@.len(),
        0 <= i < old(seq).block_table@.len() ==> final(seq).block_table@[i]
            == old(seq).block_table@[i],
        0 <= i < m.matched_blocks@.len() ==> final(seq).block_table@[old(seq).block_table@.len()
            + i] == m.matched_blocks@[i],
        final(seq).disk_block_ids@.len() == old(seq).disk_block_ids@.len()
            + m.matched_disk_block_ids@.len(),
        0 <= i < m.matched_disk_block_ids@.len()
            ==> final(seq).disk_block_ids@[old(seq).disk_block_ids@.len() + i]
            == m.matched_disk_block_ids@[i],
        final(seq).tokens == old(seq).tokens,
        final(seq).seq_len == old(seq).seq_len,
        final(seq).layer_states == old(seq).layer_states,
{
}

/// A snapshot is restored at its own depth exactly when there is one, it has a depth, the match
/// lies inside the prompt, its session admits the sequence, and it brings what the model needs.
pub proof fn twophase_restores_what_it_may(
    eff_snapshot: Option<usize>,
    depth: usize,
    matched: usize,
    total_len: usize,
    session_ok: bool,
    needs_aux: bool,
    has_aux: bool,
    r: Option<Restore>,
)
    requires
        call_ensures(
            twophase_restore,
            (eff_snapshot, depth, matched, total_len, session_ok, needs_aux, has_aux),
            r,
        ),
    ensures
        r matches Some(s) ==> eff_snapshot == Some(s.snapshot) && s.depth == depth && depth > 0
            && matched <= total_len && session_ok && (needs_aux ==> has_aux),
        r is None ==> eff_snapshot is None || depth == 0 || matched > total_len || !session_ok || (
        needs_aux && !has_aux),
{
}

/// The prefill resumes where the restored state is, and never past the prompt when the match
/// covers it whole; without a restore it starts over. What is reported as reused was matched and
/// skipped.
pub proof fn twophase_resumes_where_the_state_is(
    seq: &mut SequenceState,
    restore: Option<Restore>,
    matched: usize,
    total_len: usize,
    r: (usize, bool),
)
    requires
        call_ensures(twophase_resume, (seq, restore, matched, total_len), r),
    ensures
        r.1 <==> restore is Some,
        restore is None ==> r.0 == 0,
        restore matches Some(s) ==> r.0 <= s.depth && (r.0 == s.depth || (r.0 == matched && matched
            >= total_len)),
        restore matches Some(s) && matched >= total_len ==> r.0 <= matched,
        restore is Some && matched < total_len ==> r.0 == restore->0.depth,
        final(seq).marconi_skip_to == r.0,
        final(seq).reused_prefix_tokens <= matched,
        final(seq).reused_prefix_tokens <= r.0,
        final(seq).reused_prefix_tokens == matched || final(seq).reused_prefix_tokens == r.0,
        *final(seq) == (SequenceState {
            marconi_skip_to: final(seq).marconi_skip_to,
            reused_prefix_tokens: final(seq).reused_prefix_tokens,
            ..*old(seq)
        }),
{
}

/// Exactly the tokens past the resume point are processed, and all of them without one.
pub proof fn twophase_processes_the_rest(
    total_len: usize,
    kv_write_start: usize,
    marconi_skip: bool,
    r: (usize, usize),
    t: int,
)
    requires
        call_ensures(twophase_range, (total_len, kv_write_start, marconi_skip), r),
        0 <= t < total_len,
    ensures
        r.0 <= t < r.0 + r.1 <==> !marconi_skip || t >= kv_write_start,
        r.0 + r.1 == total_len,
{
}

/// The last block is the one that holds the last token.
pub proof fn the_last_block_holds_the_last_token(total_len: usize, bs: usize, r: usize)
    requires
        call_ensures(last_block, (total_len, bs), r),
        total_len > 0,
        bs > 0,
    ensures
        r * bs <= total_len - 1 < (r + 1) * bs,
{
    let n = total_len - 1;
    let b = bs as int;
    let q = n / b;
    assert(q * b <= n < (q + 1) * b) by (nonlinear_arith)
        requires
            q == n / b,
            0 <= n,
            0 < b,
    ;
}

/// The metadata lies behind the routing staging and the slots behind the positions, each rounded
/// up to eight bytes and no further; earlier KV is read exactly when there is some.
pub proof fn twophase_fields_lie_behind_each_other(
    proc_start: usize,
    proc_count: usize,
    experts_per_tok: usize,
    r: TwophaseLayout,
)
    requires
        call_ensures(twophase_layout, (proc_start, proc_count, experts_per_tok), r),
    ensures
        proc_count * experts_per_tok * 8 <= r.meta_offset < proc_count * experts_per_tok * 8 + 8,
        r.meta_offset % 8 == 0,
        proc_count * 4 <= r.slot_offset < proc_count * 4 + 8,
        r.slot_offset % 8 == 0,
        r.needs_paged <==> proc_start > 0,
{
    assert(0 <= proc_count * experts_per_tok) by (nonlinear_arith)
        requires
            0 <= proc_count,
            0 <= experts_per_tok,
    ;
    lemma_align_up(proc_count * experts_per_tok * 8, 8);
    lemma_align_up(proc_count * 4, 8);
}

/// Every processed token has its own position and, where none of its KV is read back, the slot of
/// that position in the sequence's own block, or in the dummy block where it has none.
pub proof fn twophase_tokens_have_their_own_slot(
    seq: &SequenceState,
    proc_start: usize,
    proc_count: usize,
    bs: usize,
    dummy_block: u32,
    r: TwophaseMeta,
    i: int,
)
    requires
        call_ensures(twophase_meta, (seq, proc_start, proc_count, bs, dummy_block), r),
        0 < bs <= MAX_BLOCK_SIZE,
        0 <= i < proc_count,
    ensures
        r.positions@.len() == proc_count,
        r.positions@[i] == (proc_start + i) as u32,
        r.slots is Some <==> proc_start == 0,
        r.slots matches Some(s) ==> {
            let pos = proc_start + i;
            let table = seq.block_table@;
            let seen = seq.disk_block_ids@.len() as int;
            let first = if seen > table.len() {
                seen - table.len()
            } else {
                0
            };
            let at = pos / bs as int - first;
            let block = if 0 <= at < table.len() {
                table[at]
            } else {
                dummy_block
            };
            &&& s@.len() == proc_count
            &&& s@[i] == block as int * bs as int + pos % bs as int
        },
{
    lemma_slot_fits(*seq, proc_start + i, bs as int, dummy_block);
}

/// The metadata is packed exactly when every field has all its elements and ends inside the
/// staging; the error names the field that does not.
pub proof fn twophase_fields_are_packed_whole(
    meta: &TwophaseMeta,
    proc_count: usize,
    layout: &TwophaseLayout,
    capacity: usize,
    r: Result<(), PackError>,
)
    requires
        call_ensures(check_twophase_pack, (meta, proc_count, layout, capacity), r),
    ensures
        r is Ok <==> {
            &&& meta.positions@.len() >= proc_count
            &&& 4 * proc_count <= capacity
            &&& meta.slots matches Some(s) ==> s@.len() >= proc_count && layout.slot_offset + 8
                * proc_count <= capacity
        },
        r matches Err(e) ==> match e {
            PackError::Short { field } => match field {
                MetaField::Positions => meta.positions@.len() < proc_count,
                MetaField::Slots => meta.slots matches Some(s) && s@.len() < proc_count,
                _ => false,
            },
            PackError::NoRoom { field } => match field {
                MetaField::Positions => 4 * proc_count > capacity,
                MetaField::Slots => meta.slots is Some && layout.slot_offset + 8 * proc_count
                    > capacity,
                _ => false,
            },
        },
{
}

/// A layer writes the KV of exactly the processed rows that the match does not cover, after a
/// restore; without one it writes from where it was told.
pub proof fn layers_write_past_the_match(
    seq: &SequenceState,
    marconi_skip: bool,
    proc_start: usize,
    proc_count: usize,
    kv_write_start: usize,
    r: usize,
    i: int,
)
    requires
        call_ensures(
            layer_kv_write_start,
            (seq, marconi_skip, proc_start, proc_count, kv_write_start),
            r,
        ),
        0 <= i < proc_count,
    ensures
        marconi_skip ==> (i >= r <==> proc_start + i >= seq.cached_prefix_tokens),
        !marconi_skip ==> r == kv_write_start,
{
}

/// One more layer runs after all before it. A recurrent layer projects the pieces of the range in
/// turn, each at its own rows, position and write floor, runs one recurrence over the range, and
/// post-processes the pieces in turn; any other layer attends once over the whole range.
pub proof fn each_layer_adds_its_phases(
    is_ssm: &Vec<bool>,
    longer: &Vec<bool>,
    ssm: bool,
    span: ProcSpan,
    chunk_size: usize,
    h: usize,
    r: Vec<TwophaseStep>,
    r2: Vec<TwophaseStep>,
    pieces: Vec<Chunk>,
    b: int,
)
    requires
        call_ensures(twophase_steps, (is_ssm, span, chunk_size, h), r),
        call_ensures(twophase_steps, (longer, span, chunk_size, h), r2),
        call_ensures(chunks, (span.count, chunk_size), pieces),
        longer@ == is_ssm@.push(ssm),
        chunk_size > 0,
        span.start + span.count <= usize::MAX,
        span.count * h * 2 <= usize::MAX,
    ensures
        ({
            let at = r@.len() as int;
            let n = pieces@.len() as int;
            let m = is_ssm@.len();
            &&& 0 <= b < at ==> r2@[b] == r@[b]
            &&& !ssm ==> {
                &&& r2@.len() == at + 1
                &&& r2@[at] matches TwophaseStep::Attention { layer, start, count, kv_write_start }
                &&& layer == m && start == span.start && count == span.count && kv_write_start
                    == span.kv_write_start
            }
            &&& ssm ==> {
                &&& r2@.len() == at + 2 * n + 1
                &&& 0 <= b < n ==> {
                    &&& r2@[at + b] matches TwophaseStep::Project {
                        layer,
                        chunk_start,
                        chunk_len,
                        offset,
                        pos,
                        kv_write_start,
                    }
                    &&& layer == m && chunk_start == pieces@[b].offset && chunk_len
                        == pieces@[b].len && offset == pieces@[b].offset * (2 * h) && pos
                        == span.start + pieces@[b].offset && kv_write_start == span.kv_write_start
                }
                &&& r2@[at + n] matches TwophaseStep::Recur { layer: l1, rows }
                &&& l1 == m && rows == span.count
                &&& 0 <= b < n ==> {
                    &&& r2@[at + n + 1 + b] matches TwophaseStep::Post {
                        layer: l2,
                        chunk_start: s2,
                        chunk_len: c2,
                        offset: o2,
                    }
                    &&& l2 == m && s2 == pieces@[b].offset && c2 == pieces@[b].len && o2
                        == pieces@[b].offset * (2 * h)
                }
            }
        }),
{
    assert(longer.len() == longer@.len());
    let m = is_ssm@.len() as int;
    let c = pieces@;
    lemma_phases_prefix(is_ssm@, longer@, m, c, span, h as int);
    assert(longer@[m] == ssm);
    lemma_chunks_inside(0, span.count as int, chunk_size as int);
    if ssm {
        let pj = project_steps(m, c, span, h as int);
        let ps = post_steps(m, c, h as int);
        if 0 <= b < c.len() {
            let o = c[b].offset as int;
            lemma_row_fits(o, span.count as int, h as int);
            assert(o * h * 2 == o * (2 * h)) by (nonlinear_arith);
            assert(r2@[r@.len() + b] == pj[b]);
            assert(r2@[r@.len() + c.len() + 1 + b] == ps[b]);
        }
    }
}

proof fn lemma_phases_prefix(
    a: Seq<bool>,
    b: Seq<bool>,
    n: int,
    c: Seq<Chunk>,
    span: ProcSpan,
    h: int,
)
    requires
        0 <= n <= a.len() <= b.len(),
        forall|i: int| 0 <= i < a.len() ==> #[trigger] b[i] == a[i],
    ensures
        twophase_steps_spec(a, n, c, span, h) == twophase_steps_spec(b, n, c, span, h),
    decreases n,
{
    if n > 0 {
        lemma_phases_prefix(a, b, n - 1, c, span, h);
        assert(b[n - 1] == a[n - 1]);
    }
}

/// No layer has no phase.
pub proof fn no_layer_has_no_phase(
    is_ssm: &Vec<bool>,
    span: ProcSpan,
    chunk_size: usize,
    h: usize,
    r: Vec<TwophaseStep>,
)
    requires
        call_ensures(twophase_steps, (is_ssm, span, chunk_size, h), r),
        is_ssm@.len() == 0,
    ensures
        r@.len() == 0,
{
}

/// A prefilled prompt leaves all its tokens at the sequence's end, the length at their number, and
/// the number of whole blocks of all tokens as the latest checkpoint; nothing else changes.
pub proof fn prompts_are_recorded_whole(
    seq: &mut SequenceState,
    tokens: &[u32],
    bs: usize,
    i: int,
)
    requires
        call_ensures(commit_prompt, (seq, tokens, bs), ()),
        bs > 0,
    ensures
        final(seq).tokens@.len() == old(seq).tokens@.len() + tokens@.len(),
        0 <= i < old(seq).tokens@.len() ==> final(seq).tokens@[i] == old(seq).tokens@[i],
        0 <= i < tokens@.len() ==> final(seq).tokens@[old(seq).tokens@.len() + i] == tokens@[i],
        final(seq).seq_len == tokens@.len(),
        final(seq).last_decode_ckpt_block * bs <= final(seq).tokens@.len(),
        final(seq).tokens@.len() < (final(seq).last_decode_ckpt_block + 1) * bs,
        *final(seq) == (SequenceState {
            tokens: final(seq).tokens,
            seq_len: final(seq).seq_len,
            last_decode_ckpt_block: final(seq).last_decode_ckpt_block,
            ..*old(seq)
        }),
{
    assert(tokens.len() == tokens@.len());
    let n = final(seq).tokens@.len() as int;
    let b = bs as int;
    let q = n / b;
    assert(final(seq).tokens.len() == n);
    assert(0 <= q <= n && q * b <= n < (q + 1) * b) by (nonlinear_arith)
        requires
            q == n / b,
            0 <= n,
            0 < b,
    ;
}

/// A two-phase pass has one position and, where they are given, one slot per token.
pub proof fn twophase_has_one_entry_per_token(
    seq: &SequenceState,
    proc_start: usize,
    proc_count: usize,
    bs: usize,
    dummy_block: u32,
    r: TwophaseMeta,
)
    requires
        call_ensures(twophase_meta, (seq, proc_start, proc_count, bs, dummy_block), r),
    ensures
        r.positions@.len() == proc_count,
        r.slots matches Some(s) ==> s@.len() == proc_count,
{
}

} // verus!
