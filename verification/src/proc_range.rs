//! The range of a prefill chunk that is processed after the prefix-cache skip.

use vstd::prelude::*;

use crate::sequence_state::SequenceState;

verus! {

/// What a chunk processes.
#[derive(Clone, Copy, Debug, PartialEq, Eq, Structural)]
pub enum ProcRange {
    /// Process `proc_count` tokens starting at `proc_start`.
    Compute { proc_start: usize, proc_count: usize, effective_seq_len_start: usize },
    /// The whole chunk is cached and it is not the last chunk.
    EarlyReturn,
}

/// Whether the whole chunk lies below the skip point.
pub open spec fn fully_cached(
    chunk_start: int,
    chunk_len: int,
    kv_write_start: int,
    marconi_skip: bool,
) -> bool {
    marconi_skip && kv_write_start > chunk_start && kv_write_start >= chunk_start + chunk_len
}

/// What a chunk processes: everything without a skip, the uncached tail of a partly cached chunk,
/// nothing of a cached one, except the last token of the last chunk, which still gives logits.
pub open spec fn proc_range_spec(
    chunk_start: int,
    chunk_len: int,
    is_last_chunk: bool,
    kv_write_start: int,
    marconi_skip: bool,
) -> ProcRange {
    let end = chunk_start + chunk_len;
    if fully_cached(chunk_start, chunk_len, kv_write_start, marconi_skip) {
        if is_last_chunk {
            ProcRange::Compute {
                proc_start: (end - 1) as usize,
                proc_count: 1,
                effective_seq_len_start: (end - 1) as usize,
            }
        } else {
            ProcRange::EarlyReturn
        }
    } else {
        let start = if marconi_skip && kv_write_start > chunk_start {
            kv_write_start
        } else {
            chunk_start
        };
        ProcRange::Compute {
            proc_start: start as usize,
            proc_count: (end - start) as usize,
            effective_seq_len_start: start as usize,
        }
    }
}

/// The known-written prefix a chunk starts from: chunk 0 resets it to the reused match.
pub open spec fn kv_valid_base(
    kv_valid: int,
    chunk_start: int,
    kv_write_start: int,
    marconi_skip: bool,
) -> int {
    if chunk_start == 0 {
        if marconi_skip {
            kv_write_start
        } else {
            0
        }
    } else {
        kv_valid
    }
}

/// The known-written prefix after a chunk: a pass over the chunk raises it to the chunk's end,
/// a cached chunk leaves it.
pub open spec fn kv_valid_after(
    kv_valid: int,
    chunk_start: int,
    chunk_len: int,
    kv_write_start: int,
    marconi_skip: bool,
) -> int {
    let base = kv_valid_base(kv_valid, chunk_start, kv_write_start, marconi_skip);
    if fully_cached(chunk_start, chunk_len, kv_write_start, marconi_skip) || base >= chunk_start
        + chunk_len {
        base
    } else {
        chunk_start + chunk_len
    }
}

/// The processed range of a chunk. The sequence records how much of its prefix has valid KV, and
/// for a cached chunk its new length; appending the chunk's tokens is the caller's.
pub fn proc_range(
    seq: &mut SequenceState,
    chunk_start: usize,
    chunk_len: usize,
    is_last_chunk: bool,
    kv_write_start: usize,
    marconi_skip: bool,
) -> (r: ProcRange)
    requires
        chunk_start + chunk_len <= usize::MAX,
        marconi_skip && kv_write_start > chunk_start && is_last_chunk ==> chunk_start + chunk_len
            >= 1,
    ensures
        r == proc_range_spec(
            chunk_start as int,
            chunk_len as int,
            is_last_chunk,
            kv_write_start as int,
            marconi_skip,
        ),
        *final(seq) == (SequenceState {
            kv_valid_tokens: kv_valid_after(
                old(seq).kv_valid_tokens as int,
                chunk_start as int,
                chunk_len as int,
                kv_write_start as int,
                marconi_skip,
            ) as usize,
            seq_len: if fully_cached(
                chunk_start as int,
                chunk_len as int,
                kv_write_start as int,
                marconi_skip,
            ) {
                (chunk_start + chunk_len) as usize
            } else {
                old(seq).seq_len
            },
            ..*old(seq)
        }),
{
    if chunk_start == 0 {
        seq.kv_valid_tokens = if marconi_skip {
            kv_write_start
        } else {
            0
        };
    }
    let end: usize = chunk_start + chunk_len;
    if marconi_skip && kv_write_start > chunk_start {
        let past: usize = kv_write_start - chunk_start;
        let skip_in_chunk: usize = if past < chunk_len {
            past
        } else {
            chunk_len
        };
        if skip_in_chunk >= chunk_len {
            seq.seq_len = end;
            if is_last_chunk {
                ProcRange::Compute {
                    proc_start: end - 1,
                    proc_count: 1,
                    effective_seq_len_start: end - 1,
                }
            } else {
                ProcRange::EarlyReturn
            }
        } else {
            let uncached_start: usize = chunk_start + skip_in_chunk;
            let uncached_count: usize = chunk_len - skip_in_chunk;
            if seq.kv_valid_tokens < end {
                seq.kv_valid_tokens = end;
            }
            ProcRange::Compute {
                proc_start: uncached_start,
                proc_count: uncached_count,
                effective_seq_len_start: uncached_start,
            }
        }
    } else {
        if seq.kv_valid_tokens < end {
            seq.kv_valid_tokens = end;
        }
        ProcRange::Compute {
            proc_start: chunk_start,
            proc_count: chunk_len,
            effective_seq_len_start: chunk_start,
        }
    }
}

/// The valid prefix covers every chunk that was prefilled: with the skip point already covered,
/// it covers the chunk afterwards, never shrinks, and grows no further than the chunk's end.
pub proof fn valid_prefix_covers_chunk(
    kv_valid: int,
    chunk_start: int,
    chunk_len: int,
    kv_write_start: int,
    marconi_skip: bool,
)
    requires
        0 <= chunk_start,
        0 <= chunk_len,
        0 <= kv_write_start,
        chunk_start > 0 && marconi_skip ==> kv_valid >= kv_write_start,
    ensures
        ({
            let base = kv_valid_base(kv_valid, chunk_start, kv_write_start, marconi_skip);
            let after = kv_valid_after(
                kv_valid,
                chunk_start,
                chunk_len,
                kv_write_start,
                marconi_skip,
            );
            &&& after >= chunk_start + chunk_len
            &&& after >= base
            &&& after == base || after == chunk_start + chunk_len
            &&& marconi_skip ==> after >= kv_write_start
        }),
{
}

/// A processed range lies inside its chunk and ends where the chunk ends.
pub proof fn processed_range_is_inside_chunk(
    chunk_start: int,
    chunk_len: int,
    is_last_chunk: bool,
    kv_write_start: int,
    marconi_skip: bool,
)
    requires
        0 <= chunk_start,
        0 < chunk_len,
        chunk_start + chunk_len <= usize::MAX,
    ensures
        proc_range_spec(
            chunk_start,
            chunk_len,
            is_last_chunk,
            kv_write_start,
            marconi_skip,
        ) matches ProcRange::Compute { proc_start, proc_count, effective_seq_len_start } ==> {
            &&& chunk_start <= proc_start
            &&& proc_count > 0
            &&& proc_start + proc_count == chunk_start + chunk_len
            &&& effective_seq_len_start == proc_start
        },
        is_last_chunk ==> !(proc_range_spec(
            chunk_start,
            chunk_len,
            is_last_chunk,
            kv_write_start,
            marconi_skip,
        ) is EarlyReturn),
{
}

/// Where the token context of an n-gram embedding starts: up to `lookbehind` tokens before
/// `start`.
pub fn ngram_context_start(start: usize, lookbehind: usize) -> (r: usize)
    ensures
        r == if start >= lookbehind {
            start - lookbehind
        } else {
            0
        },
{
    start.saturating_sub(lookbehind)
}

/// The tokens to embed again: the processed range, unless it is the whole chunk, whose rows are
/// already embedded.
pub fn reembed_range(range: &ProcRange, chunk_start: usize, kv_write_start: usize, marconi_skip: bool) -> (r:
    Option<(usize, usize)>)
    ensures
        r == match *range {
            ProcRange::Compute { proc_start, proc_count, effective_seq_len_start } => if marconi_skip
                && kv_write_start > chunk_start {
                Some((proc_start, proc_count))
            } else {
                None
            },
            ProcRange::EarlyReturn => None,
        },
{
    match range {
        ProcRange::Compute { proc_start, proc_count, effective_seq_len_start: _ } => if marconi_skip
            && kv_write_start > chunk_start {
            Some((*proc_start, *proc_count))
        } else {
            None
        },
        ProcRange::EarlyReturn => None,
    }
}

/// A chunk is processed exactly where the prefix cache does not cover it: a token is run through
/// the layers if and only if it lies at or past the skip point, and the tail of a last chunk is
/// run once more for its logits. Nothing outside the chunk is run, and only a chunk that is
/// covered whole and is not the last is left alone.
pub proof fn tokens_past_the_skip_point_are_processed(
    seq: &mut SequenceState,
    chunk_start: usize,
    chunk_len: usize,
    is_last_chunk: bool,
    kv_write_start: usize,
    marconi_skip: bool,
    r: ProcRange,
    t: int,
)
    requires
        call_ensures(
            proc_range,
            (seq, chunk_start, chunk_len, is_last_chunk, kv_write_start, marconi_skip),
            r,
        ),
        chunk_start + chunk_len <= usize::MAX,
        chunk_len > 0,
        0 <= t,
    ensures
        ({
            let end = chunk_start + chunk_len;
            let cached = marconi_skip && t < kv_write_start;
            let relogit = is_last_chunk && t == end - 1;
            match r {
                ProcRange::Compute { proc_start, proc_count, effective_seq_len_start } => {
                    &&& proc_start <= t < proc_start + proc_count <==> (chunk_start <= t < end && (
                    !cached || relogit))
                    &&& effective_seq_len_start == proc_start
                    &&& proc_start + proc_count == end
                },
                ProcRange::EarlyReturn => {
                    &&& !is_last_chunk
                    &&& marconi_skip
                    &&& kv_write_start >= end
                },
            }
        }),
        !is_last_chunk && marconi_skip && kv_write_start >= chunk_start + chunk_len ==> r
            is EarlyReturn,
{
}

/// The recorded prefix of valid KV claims no token without ground: each one was claimed before
/// (a new prompt claims only what its match brings), or is run through the layers now.
/// Processing a chunk from a covered start leaves the whole prefix through it claimed. Nothing
/// else of the sequence changes but the length of one whose chunk is cached.
pub proof fn valid_prefix_is_written_or_reused(
    seq: &mut SequenceState,
    chunk_start: usize,
    chunk_len: usize,
    is_last_chunk: bool,
    kv_write_start: usize,
    marconi_skip: bool,
    r: ProcRange,
    t: int,
)
    requires
        call_ensures(
            proc_range,
            (seq, chunk_start, chunk_len, is_last_chunk, kv_write_start, marconi_skip),
            r,
        ),
        chunk_start + chunk_len <= usize::MAX,
        chunk_len > 0,
        0 <= t,
    ensures
        ({
            let before = if chunk_start > 0 {
                old(seq).kv_valid_tokens as int
            } else if marconi_skip {
                kv_write_start as int
            } else {
                0
            };
            let cached = marconi_skip && kv_write_start >= chunk_start + chunk_len;
            let processed = match r {
                ProcRange::Compute { proc_start, proc_count, effective_seq_len_start } => proc_start
                    <= t < proc_start + proc_count,
                ProcRange::EarlyReturn => false,
            };
            &&& t < before ==> t < final(seq).kv_valid_tokens
            &&& (!cached && t < chunk_start + chunk_len) ==> t < final(seq).kv_valid_tokens
            &&& (before >= chunk_start && (marconi_skip ==> before >= kv_write_start || before
                >= chunk_start + chunk_len) && before <= t < final(seq).kv_valid_tokens)
                ==> processed
            &&& cached ==> final(seq).kv_valid_tokens == before
            &&& final(seq).seq_len == if cached {
                chunk_start + chunk_len
            } else {
                old(seq).seq_len as int
            }
            &&& *final(seq) == (SequenceState {
                kv_valid_tokens: final(seq).kv_valid_tokens,
                seq_len: final(seq).seq_len,
                ..*old(seq)
            })
        }),
{
}

/// The rows a chunk embeds again are the rows it processes, and only when the skip point lies
/// past the chunk's start.
pub proof fn processed_rows_are_embedded(
    range: &ProcRange,
    chunk_start: usize,
    kv_write_start: usize,
    marconi_skip: bool,
    r: Option<(usize, usize)>,
)
    requires
        call_ensures(reembed_range, (range, chunk_start, kv_write_start, marconi_skip), r),
    ensures
        r is Some <==> *range is Compute && marconi_skip && kv_write_start > chunk_start,
        r matches Some((start, count)) ==> (*range matches ProcRange::Compute {
            proc_start,
            proc_count,
            effective_seq_len_start,
        } && start == proc_start && count == proc_count),
{
}

/// The context of an n-gram embedding reaches back `lookbehind` tokens, or to the prompt's start.
pub proof fn context_reaches_back(start: usize, lookbehind: usize, r: usize)
    requires
        call_ensures(ngram_context_start, (start, lookbehind), r),
    ensures
        r <= start,
        start - r <= lookbehind,
        r == 0 || start - r == lookbehind,
{
}

} // verus!
