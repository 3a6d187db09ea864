//! Streams of a batched prefill and the results of forward passes.

use vstd::prelude::*;

use crate::batch_eligible::{
    check_kernel_batched_eligible, effective_len, effective_len_spec, eligible_spec, StreamShape,
};
use crate::batch_kernel::StreamNeed;
use crate::sequence_state::{DevicePtr, SequenceState};

verus! {

/// Result of a mixed forward pass: decode rows and one prefill chunk.
#[derive(Clone, Copy, Debug, PartialEq, Eq, Structural)]
pub struct MixedForwardResult {
    /// Logits of the decode sequences; null when there are none.
    pub decode_logits: DevicePtr,
    /// Logits of the prefill sequence's last token; null unless the chunk was its last.
    pub prefill_logits: DevicePtr,
}

/// Result of a batched mixed forward pass: decode rows and several prefill chunks.
pub struct MixedBatchResult {
    /// Logits of the decode rows; null when there are none.
    pub decode_logits: DevicePtr,
    /// One entry per prefill stream, in input order; null unless that stream's chunk was its
    /// last.
    pub prefill_logits: Vec<DevicePtr>,
}

/// One prefilling stream's chunk.
pub struct PrefillSlice<'a> {
    /// The stream's full prompt.
    pub prompt_tokens: &'a [u32],
    pub seq: &'a mut SequenceState,
    /// Offset into `prompt_tokens` where this chunk starts.
    pub chunk_start: usize,
    pub chunk_len: usize,
    /// Whether this is the stream's final chunk.
    pub is_last_chunk: bool,
}

/// A stream as admission sees it, with `matched` prompt tokens cached.
pub open spec fn shape_of(s: PrefillSlice<'_>, effective_charge: bool, matched: usize) -> StreamShape {
    StreamShape {
        chunk_len: s.chunk_len,
        eff_len: effective_len_spec(
            effective_charge,
            s.chunk_len as int,
            s.chunk_start as int,
            s.is_last_chunk,
            matched as int,
        ) as usize,
        chunk_start: s.chunk_start,
        is_last: s.is_last_chunk,
    }
}

/// The streams as admission sees them.
pub open spec fn shapes_of(
    streams: Seq<PrefillSlice<'_>>,
    effective_charge: bool,
    matched: Seq<usize>,
) -> Seq<StreamShape> {
    Seq::new(streams.len(), |i: int| shape_of(streams[i], effective_charge, matched[i]))
}

/// The streams as admission sees them; `matched[i]` is how much of stream `i`'s prompt the prefix
/// cache holds.
pub fn stream_shapes(
    streams: &Vec<PrefillSlice<'_>>,
    matched: &Vec<usize>,
    effective_charge: bool,
) -> (r: Vec<StreamShape>)
    requires
        matched@.len() == streams@.len(),
    ensures
        r@ == shapes_of(streams@, effective_charge, matched@),
{
    let mut shapes: Vec<StreamShape> = Vec::new();
    let mut i: usize = 0;
    while i < streams.len()
        invariant
            matched@.len() == streams@.len(),
            i <= streams@.len(),
            shapes@ == shapes_of(streams@, effective_charge, matched@).subrange(0, i as int),
        decreases streams@.len() - i,
    {
        let s = &streams[i];
        let eff_len: usize = effective_len(
            effective_charge,
            s.chunk_len,
            s.chunk_start,
            s.is_last_chunk,
            matched[i],
        );
        shapes.push(
            StreamShape {
                chunk_len: s.chunk_len,
                eff_len,
                chunk_start: s.chunk_start,
                is_last: s.is_last_chunk,
            },
        );
        i = i + 1;
        assert(shapes@ =~= shapes_of(streams@, effective_charge, matched@).subrange(0, i as int));
    }
    assert(shapes@ =~= shapes_of(streams@, effective_charge, matched@));
    shapes
}

/// Whether the kernel-batched path may take these streams. `scratch_needed` is the answer to
/// their scratch request.
pub fn kernel_batched_eligible(
    streams: &Vec<PrefillSlice<'_>>,
    matched: &Vec<usize>,
    effective_charge: bool,
    arena_cap: usize,
    is_mla: bool,
    head_dim: usize,
    scratch_cap: usize,
    scratch_needed: usize,
    first_chunk_batched: bool,
    varlen: bool,
) -> (r: bool)
    requires
        matched@.len() == streams@.len(),
    ensures
        r == eligible_spec(
            shapes_of(streams@, effective_charge, matched@),
            streams@.len() as int,
            arena_cap as int,
            is_mla,
            head_dim as int,
            scratch_cap as int,
            scratch_needed as int,
            first_chunk_batched || varlen,
            varlen,
        ),
{
    let shapes: Vec<StreamShape> = stream_shapes(streams, matched, effective_charge);
    check_kernel_batched_eligible(
        shapes.as_slice(),
        streams.len(),
        arena_cap,
        is_mla,
        head_dim,
        scratch_cap,
        scratch_needed,
        first_chunk_batched || varlen,
        varlen,
    )
}

/// What each stream needs of the KV cache, with `matched[i]` of its prompt cached.
pub fn stream_needs(streams: &Vec<PrefillSlice<'_>>, matched: &Vec<usize>) -> (r: Vec<StreamNeed>)
    requires
        matched@.len() == streams@.len(),
    ensures
        r@ == Seq::new(
            streams@.len(),
            |i: int|
                StreamNeed {
                    chunk_start: streams@[i].chunk_start,
                    chunk_len: streams@[i].chunk_len,
                    blocks: streams@[i].seq.block_table@.len() as usize,
                    matched_tokens: matched@[i],
                },
        ),
{
    let mut out: Vec<StreamNeed> = Vec::new();
    let mut i: usize = 0;
    while i < streams.len()
        invariant
            matched@.len() == streams@.len(),
            i <= streams@.len(),
            out@ == Seq::new(
                i as nat,
                |i: int|
                    StreamNeed {
                        chunk_start: streams@[i].chunk_start,
                        chunk_len: streams@[i].chunk_len,
                        blocks: streams@[i].seq.block_table@.len() as usize,
                        matched_tokens: matched@[i],
                    },
            ),
        decreases streams@.len() - i,
    {
        let s = &streams[i];
        out.push(
            StreamNeed {
                chunk_start: s.chunk_start,
                chunk_len: s.chunk_len,
                blocks: s.seq.block_table.len(),
                matched_tokens: matched[i],
            },
        );
        i = i + 1;
    }
    out
}

/// Admission sees every stream as it would run: its own chunk, start and end, and the tokens it
/// would stage given its own match.
pub proof fn shapes_are_the_streams_own(
    streams: &Vec<PrefillSlice<'_>>,
    matched: &Vec<usize>,
    effective_charge: bool,
    r: Vec<StreamShape>,
    i: int,
    staged: usize,
)
    requires
        call_ensures(stream_shapes, (streams, matched, effective_charge), r),
        0 <= i < streams@.len(),
        call_ensures(
            effective_len,
            (
                effective_charge,
                streams@[i].chunk_len,
                streams@[i].chunk_start,
                streams@[i].is_last_chunk,
                matched@[i],
            ),
            staged,
        ),
    ensures
        r@.len() == streams@.len(),
        r@[i].chunk_len == streams@[i].chunk_len,
        r@[i].chunk_start == streams@[i].chunk_start,
        r@[i].is_last == streams@[i].is_last_chunk,
        r@[i].eff_len == staged,
{
}

/// A batch is admitted exactly as its shapes are, chunk 0 with varying lengths or where first
/// chunks are batched.
pub proof fn batches_are_admitted_by_their_shapes(
    streams: &Vec<PrefillSlice<'_>>,
    matched: &Vec<usize>,
    effective_charge: bool,
    arena_cap: usize,
    is_mla: bool,
    head_dim: usize,
    scratch_cap: usize,
    scratch_needed: usize,
    first_chunk_batched: bool,
    varlen: bool,
    r: bool,
    seen: Vec<StreamShape>,
    shapes: &[StreamShape],
    n: usize,
    allow: bool,
    by_shapes: bool,
)
    requires
        call_ensures(
            kernel_batched_eligible,
            (
                streams,
                matched,
                effective_charge,
                arena_cap,
                is_mla,
                head_dim,
                scratch_cap,
                scratch_needed,
                first_chunk_batched,
                varlen,
            ),
            r,
        ),
        call_ensures(
            check_kernel_batched_eligible,
            (
                shapes,
                n,
                arena_cap,
                is_mla,
                head_dim,
                scratch_cap,
                scratch_needed,
                allow,
                varlen,
            ),
            by_shapes,
        ),
        call_ensures(stream_shapes, (streams, matched, effective_charge), seen),
        seen@ == shapes@,
        n == streams@.len(),
        allow == (first_chunk_batched || varlen),
    ensures
        r == by_shapes,
{
}

/// What a stream needs of the cache is its own: its chunk, the blocks its sequence has, and its
/// own match.
pub proof fn needs_are_the_streams_own(
    streams: &Vec<PrefillSlice<'_>>,
    matched: &Vec<usize>,
    r: Vec<StreamNeed>,
    i: int,
)
    requires
        call_ensures(stream_needs, (streams, matched), r),
        0 <= i < streams@.len(),
    ensures
        r@.len() == streams@.len(),
        r@[i].chunk_start == streams@[i].chunk_start,
        r@[i].chunk_len == streams@[i].chunk_len,
        r@[i].blocks == streams@[i].seq.block_table@.len() as usize,
        r@[i].matched_tokens == matched@[i],
{
}

} // verus!
