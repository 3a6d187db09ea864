//! Scoring the prompt: which positions of a chunk are scored, in which batches, and against
//! which tokens.

use vstd::prelude::*;

use crate::chunks::{chunks, chunks_from, Chunk};
use crate::sequence_state::SequenceState;

verus! {

/// Rows projected per batch.
pub const BATCH_ROWS: usize = 32;

/// The chunk was not fully recomputed, so its rows are not its positions.
#[derive(Clone, Copy, Debug, PartialEq, Eq, Structural)]
pub struct PartialChunk {
    pub proc_start: usize,
    pub chunk_start: usize,
}

/// Rows of a chunk that are scored: each predicts the next prompt token, so the last prompt
/// position has none.
pub open spec fn rows_to_score(prompt: int, chunk_start: int, proc_count: int) -> int {
    let scored_end = if prompt > 0 {
        prompt - 1
    } else {
        0
    };
    if scored_end <= chunk_start {
        0
    } else if scored_end - chunk_start < proc_count {
        scored_end - chunk_start
    } else {
        proc_count
    }
}

/// The batches of rows of a chunk that are scored; none when nothing is collected. A chunk that
/// was not fully recomputed is refused, since its rows would not be its positions.
pub fn score_batches(
    seq: &SequenceState,
    prompt: usize,
    chunk_start: usize,
    proc_start: usize,
    proc_count: usize,
) -> (r: Result<Vec<Chunk>, PartialChunk>)
    ensures
        seq.collect_prompt_logprobs is None ==> r is Ok && r->Ok_0@.len() == 0,
        seq.collect_prompt_logprobs is Some && proc_start != chunk_start ==> r == Err::<
            Vec<Chunk>,
            PartialChunk,
        >(PartialChunk { proc_start, chunk_start }),
        seq.collect_prompt_logprobs is Some && proc_start == chunk_start ==> {
            &&& r matches Ok(b)
            &&& b@ == chunks_from(
                0,
                rows_to_score(prompt as int, chunk_start as int, proc_count as int),
                BATCH_ROWS as int,
            )
        },
{
    if seq.collect_prompt_logprobs.is_none() {
        return Ok(Vec::new());
    }
    if proc_start != chunk_start {
        return Err(PartialChunk { proc_start, chunk_start });
    }
    let scored_end: usize = prompt.saturating_sub(1);
    let left: usize = scored_end.saturating_sub(chunk_start);
    let rows: usize = if proc_count < left {
        proc_count
    } else {
        left
    };
    Ok(chunks(rows, BATCH_ROWS))
}

/// The tokens a batch is scored against: row `r` predicts the token after its position.
pub fn score_targets(tokens: &[u32], chunk_start: usize, batch: &Chunk) -> (r: Vec<u32>)
    requires
        chunk_start + batch.offset + batch.len + 1 <= tokens@.len(),
    ensures
        r@ == tokens@.subrange(
            chunk_start + batch.offset + 1,
            chunk_start + batch.offset + batch.len + 1,
        ),
{
    assert(tokens.len() == tokens@.len());
    let from: usize = chunk_start + batch.offset + 1;
    let mut out: Vec<u32> = Vec::new();
    let mut j: usize = 0;
    while j < batch.len
        invariant
            from == chunk_start + batch.offset + 1,
            from + batch.len <= tokens@.len(),
            tokens@.len() <= usize::MAX,
            j <= batch.len,
            out@ == tokens@.subrange(from as int, from + j),
        decreases batch.len - j,
    {
        out.push(tokens[from + j]);
        j = j + 1;
        assert(out@ =~= tokens@.subrange(from as int, from + j));
    }
    out
}

/// Every scored row has a target inside the prompt, and each batch's targets are in range.
pub proof fn targets_are_inside_prompt(
    prompt: int,
    chunk_start: int,
    proc_count: int,
    offset: int,
    len: int,
)
    requires
        0 <= offset,
        0 < len,
        0 <= chunk_start,
        offset + len <= rows_to_score(prompt, chunk_start, proc_count),
    ensures
        chunk_start + offset + len + 1 <= prompt,
{
}

/// A position is scored exactly when a prompt token follows it: the rows of a chunk that are
/// scored are those whose next token still belongs to the prompt.
pub proof fn scored_exactly_when_a_token_follows(
    prompt: int,
    chunk_start: int,
    proc_count: int,
    row: int,
)
    requires
        0 <= row < proc_count,
        0 <= chunk_start,
        0 <= prompt,
    ensures
        row < rows_to_score(prompt, chunk_start, proc_count) <==> chunk_start + row + 1 < prompt,
{
}

/// With scoring asked for, the first `rows` rows of a chunk are scored: all processed rows whose
/// next token the prompt still has. A chunk that was not processed from its start is refused, and
/// without scoring nothing is scored. The rows are cut into batches of 32 as any range is.
pub proof fn rows_with_a_next_token_are_scored(
    seq: &SequenceState,
    prompt: usize,
    chunk_start: usize,
    proc_start: usize,
    proc_count: usize,
    r: Result<Vec<Chunk>, PartialChunk>,
    rows: usize,
    pieces: Vec<Chunk>,
)
    requires
        call_ensures(score_batches, (seq, prompt, chunk_start, proc_start, proc_count), r),
        call_ensures(chunks, (rows, 32usize), pieces),
        rows <= proc_count,
        rows > 0 ==> chunk_start + (rows - 1) + 1 < prompt,
        rows == proc_count || chunk_start + rows + 1 >= prompt,
    ensures
        seq.collect_prompt_logprobs is None ==> r is Ok && r->Ok_0@.len() == 0,
        seq.collect_prompt_logprobs is Some ==> (r is Ok <==> proc_start == chunk_start),
        r matches Err(e) ==> e.proc_start == proc_start && e.chunk_start == chunk_start,
        seq.collect_prompt_logprobs is Some && r is Ok ==> r->Ok_0@ == pieces@,
{
}

/// Each scored row's target is the token right after it in the prompt.
pub proof fn targets_are_the_next_tokens(
    tokens: &[u32],
    chunk_start: usize,
    batch: &Chunk,
    r: Vec<u32>,
    j: int,
)
    requires
        call_ensures(score_targets, (tokens, chunk_start, batch), r),
        chunk_start + batch.offset + batch.len + 1 <= tokens@.len(),
        0 <= j < batch.len,
    ensures
        r@.len() == batch.len,
        r@[j] == tokens@[(chunk_start + batch.offset + j) + 1],
{
}

} // verus!
