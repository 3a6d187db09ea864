//! Dispatch of a prefill step over several streams: all at once through the batched kernels, or
//! one after another, where a stream that fails does not stop the others.

use vstd::prelude::*;
use vstd::string::*;

use crate::sequence_state::{DevicePtr, SequenceState};

verus! {

/// A letter in lower or upper case.
pub open spec fn is_letter(c: char, lower: char, upper: char) -> bool {
    c == lower || c == upper
}

/// Whether `s` reads `true` in any case.
pub open spec fn reads_true(s: Seq<char>) -> bool {
    &&& s.len() == 4
    &&& is_letter(s[0], 't', 'T')
    &&& is_letter(s[1], 'r', 'R')
    &&& is_letter(s[2], 'u', 'U')
    &&& is_letter(s[3], 'e', 'E')
}

/// Whether `s` reads `false` in any case.
pub open spec fn reads_false(s: Seq<char>) -> bool {
    &&& s.len() == 5
    &&& is_letter(s[0], 'f', 'F')
    &&& is_letter(s[1], 'a', 'A')
    &&& is_letter(s[2], 'l', 'L')
    &&& is_letter(s[3], 's', 'S')
    &&& is_letter(s[4], 'e', 'E')
}

/// Whether the shift of prefill logits rows is disabled, from the raw value of its switch: `1`,
/// or `true` in any case.
pub fn row_shift_disabled(raw: Option<&str>) -> (r: bool)
    ensures
        r == (raw matches Some(s) && (s@ == seq!['1'] || reads_true(s@))),
{
    match raw {
        None => false,
        Some(s) => {
            let n: usize = s.unicode_len();
            if n == 1 {
                let one: bool = s.get_char(0) == '1';
                assert(one ==> s@ =~= seq!['1']);
                one
            } else if n == 4 {
                let (a, b, c, d) = (s.get_char(0), s.get_char(1), s.get_char(2), s.get_char(3));
                (a == 't' || a == 'T') && (b == 'r' || b == 'R') && (c == 'u' || c == 'U') && (d
                    == 'e' || d == 'E')
            } else {
                false
            }
        },
    }
}

/// Whether the batched kernels are enabled, from the raw value of their switch: unless it is `0`,
/// or `false` in any case.
pub fn batched_enabled(raw: Option<&str>) -> (r: bool)
    ensures
        r == !(raw matches Some(s) && (s@ == seq!['0'] || reads_false(s@))),
{
    match raw {
        None => true,
        Some(s) => {
            let n: usize = s.unicode_len();
            if n == 1 {
                let zero: bool = s.get_char(0) == '0';
                assert(zero ==> s@ =~= seq!['0']);
                !zero
            } else if n == 5 {
                let (a, b, c) = (s.get_char(0), s.get_char(1), s.get_char(2));
                let (d, e) = (s.get_char(3), s.get_char(4));
                !((a == 'f' || a == 'F') && (b == 'a' || b == 'A') && (c == 'l' || c == 'L') && (d
                    == 's' || d == 'S') && (e == 'e' || e == 'E'))
            } else {
                true
            }
        },
    }
}

/// The first logits row of a prefill step: the requested one, or 0 when the shift is disabled or
/// the logits buffer cannot hold `n` rows from there.
pub fn logits_row_base(
    n: usize,
    requested: usize,
    shift_disabled: bool,
    logits_bytes: usize,
    vocab: usize,
) -> (r: usize)
    requires
        0 < vocab,
        vocab * 2 <= usize::MAX,
    ensures
        r == if shift_disabled || requested + n > logits_bytes as int / (vocab * 2) {
            0
        } else {
            requested
        },
{
    let rows: usize = logits_bytes / (vocab * 2);
    if shift_disabled {
        return 0;
    }
    if n > rows || requested > rows - n {
        0
    } else {
        requested
    }
}

/// How a prefill step runs.
#[derive(Clone, Copy, Debug, PartialEq, Eq, Structural)]
pub enum BatchRoute {
    Empty,
    /// One stream whose logits go to row 0.
    Single,
    /// A chunk exceeds the hidden-row arena.
    TooLong { stream: usize, chunk_len: usize },
    /// Through the batched kernels; not admitted, the streams run one after another.
    Kernel,
    /// One stream after another.
    PerStream,
}

/// Whether stream `i` is the first whose chunk exceeds the arena.
pub open spec fn first_too_long(chunk_lens: Seq<usize>, arena_cap: int, i: int) -> bool {
    &&& 0 <= i < chunk_lens.len()
    &&& chunk_lens[i] > arena_cap
    &&& forall|j: int| 0 <= j < i ==> #[trigger] chunk_lens[j] <= arena_cap
}

/// How a prefill step of these chunks runs. `eligible` says whether the batched kernels may take
/// the streams.
pub fn batch_route(
    chunk_lens: &[usize],
    row_base: usize,
    arena_cap: usize,
    kernels_enabled: bool,
    eligible: bool,
) -> (r: BatchRoute)
    ensures
        (r is Empty) == (chunk_lens@.len() == 0),
        (r is Single) == (chunk_lens@.len() == 1 && row_base == 0),
        r matches BatchRoute::TooLong { stream, chunk_len } ==> first_too_long(
            chunk_lens@,
            arena_cap as int,
            stream as int,
        ) && chunk_len == chunk_lens@[stream as int],
        chunk_lens@.len() > 1 || (chunk_lens@.len() == 1 && row_base != 0) ==> {
            let fits = forall|i: int|
                0 <= i < chunk_lens@.len() ==> #[trigger] chunk_lens@[i] <= arena_cap;
            &&& (r is TooLong) == !fits
            &&& (r is Kernel) == (fits && kernels_enabled && eligible)
            &&& (r is PerStream) == (fits && !(kernels_enabled && eligible))
        },
{
    let n: usize = chunk_lens.len();
    if n == 0 {
        return BatchRoute::Empty;
    }
    if n == 1 && row_base == 0 {
        return BatchRoute::Single;
    }
    let mut i: usize = 0;
    while i < n
        invariant
            n == chunk_lens@.len(),
            n > 1 || (n == 1 && row_base != 0),
            i <= n,
            forall|j: int| 0 <= j < i ==> #[trigger] chunk_lens@[j] <= arena_cap,
        decreases n - i,
    {
        if chunk_lens[i] > arena_cap {
            assert(!(chunk_lens@[i as int] <= arena_cap));
            return BatchRoute::TooLong { stream: i, chunk_len: chunk_lens[i] };
        }
        i = i + 1;
    }
    if kernels_enabled && eligible {
        BatchRoute::Kernel
    } else {
        BatchRoute::PerStream
    }
}

/// How the batched kernels ended.
#[derive(Clone, Copy, Debug, PartialEq, Eq, Structural)]
pub enum KernelOutcome {
    Completed,
    NotAdmitted,
    Failed,
}

/// What follows the batched kernels.
#[derive(Clone, Copy, Debug, PartialEq, Eq, Structural)]
pub enum AfterKernel {
    /// Return their logits.
    Return,
    /// Run the streams one after another.
    PerStream,
    /// Return the error: a batch that was admitted may already own blocks and state, and a retry
    /// would take them a second time.
    Fail,
}

/// What follows the batched kernels.
pub fn after_kernel(outcome: KernelOutcome) -> (r: AfterKernel)
    ensures
        r == match outcome {
            KernelOutcome::Completed => AfterKernel::Return,
            KernelOutcome::NotAdmitted => AfterKernel::PerStream,
            KernelOutcome::Failed => AfterKernel::Fail,
        },
{
    match outcome {
        KernelOutcome::Completed => AfterKernel::Return,
        KernelOutcome::NotAdmitted => AfterKernel::PerStream,
        KernelOutcome::Failed => AfterKernel::Fail,
    }
}

/// The logits of each stream run on its own: null for a stream that failed or has none yet.
pub open spec fn isolated_logits(outcomes: Seq<Option<DevicePtr>>) -> Seq<DevicePtr> {
    Seq::new(
        outcomes.len(),
        |i: int|
            match outcomes[i] {
                Some(p) => p,
                None => DevicePtr(0),
            },
    )
}

/// The logits of each stream run on its own; `None` stands for a stream that failed.
pub fn isolate_failures(outcomes: &Vec<Option<DevicePtr>>) -> (r: Vec<DevicePtr>)
    ensures
        r@ == isolated_logits(outcomes@),
{
    let mut out: Vec<DevicePtr> = Vec::new();
    let mut i: usize = 0;
    while i < outcomes.len()
        invariant
            i <= outcomes@.len(),
            out@ == isolated_logits(outcomes@).subrange(0, i as int),
        decreases outcomes@.len() - i,
    {
        let p: DevicePtr = match outcomes[i] {
            Some(p) => p,
            None => DevicePtr(0),
        };
        out.push(p);
        i = i + 1;
        assert(out@ =~= isolated_logits(outcomes@).subrange(0, i as int));
    }
    assert(out@ =~= isolated_logits(outcomes@));
    out
}

/// A failed stream changes no other stream's logits.
pub proof fn failure_stays_in_its_stream(
    outcomes: Seq<Option<DevicePtr>>,
    failed: int,
    i: int,
)
    requires
        0 <= failed < outcomes.len(),
        0 <= i < outcomes.len(),
        i != failed,
    ensures
        isolated_logits(outcomes.update(failed, None))[i] == isolated_logits(outcomes)[i],
        isolated_logits(outcomes.update(failed, None))[failed] == DevicePtr(0),
        isolated_logits(outcomes.update(failed, None)).len() == outcomes.len(),
{
}

/// Append a chunk's tokens and set the length to its end.
fn append_chunk(seq: &mut SequenceState, tokens: &[u32], chunk_start: usize, chunk_len: usize)
    requires
        chunk_start + chunk_len <= tokens@.len(),
    ensures
        final(seq).tokens@ == old(seq).tokens@ + tokens@.subrange(
            chunk_start as int,
            chunk_start + chunk_len,
        ),
        *final(seq) == (SequenceState {
            tokens: final(seq).tokens,
            seq_len: (chunk_start + chunk_len) as usize,
            ..*old(seq)
        }),
{
    assert(tokens.len() == tokens@.len());
    let end: usize = chunk_start + chunk_len;
    let mut i: usize = chunk_start;
    while i < end
        invariant
            chunk_start <= i <= end <= tokens@.len(),
            seq.tokens@ == old(seq).tokens@ + tokens@.subrange(chunk_start as int, i as int),
            *seq == (SequenceState { tokens: seq.tokens, ..*old(seq) }),
        decreases end - i,
    {
        seq.tokens.push(tokens[i]);
        i = i + 1;
        assert(seq.tokens@ =~= old(seq).tokens@ + tokens@.subrange(chunk_start as int, i as int));
    }
    seq.seq_len = end;
}

/// The sequence once `added` tokens were prefilled up to position `end`: the block it ends in
/// counts as checkpointed.
pub open spec fn prefill_recorded(
    before: SequenceState,
    added: Seq<u32>,
    end: int,
    bs: int,
    after: SequenceState,
) -> bool {
    &&& after.tokens@ == before.tokens@ + added
    &&& after == (SequenceState {
        tokens: after.tokens,
        seq_len: end as usize,
        last_decode_ckpt_block: (after.tokens@.len() as int / bs) as usize,
        ..before
    })
}

/// Record a prefilled chunk, however its rows were run: its tokens are appended, the length is its
/// end, and the block the sequence now ends in counts as checkpointed, so that no decode
/// checkpoint is taken there again.
pub fn commit_chunk(
    seq: &mut SequenceState,
    tokens: &[u32],
    chunk_start: usize,
    chunk_len: usize,
    bs: usize,
)
    requires
        chunk_start + chunk_len <= tokens@.len(),
        bs > 0,
    ensures
        prefill_recorded(
            *old(seq),
            tokens@.subrange(chunk_start as int, chunk_start + chunk_len),
            chunk_start + chunk_len,
            bs as int,
            *final(seq),
        ),
        final(seq).last_decode_ckpt_block == final(seq).tokens@.len() / bs as nat,
{
    append_chunk(seq, tokens, chunk_start, chunk_len);
    seq.last_decode_ckpt_block = seq.tokens.len() / bs;
}

/// Prefilling a prompt chunk by chunk leaves exactly its tokens: appending the next chunk to the
/// prefix before it gives the longer prefix.
pub proof fn chunks_append_to_the_prompt(tokens: Seq<u32>, start: int, len: int)
    requires
        0 <= start,
        0 <= len,
        start + len <= tokens.len(),
    ensures
        tokens.subrange(0, start) + tokens.subrange(start, start + len) == tokens.subrange(
            0,
            start + len,
        ),
{
    assert(tokens.subrange(0, start) + tokens.subrange(start, start + len) =~= tokens.subrange(
        0,
        start + len,
    ));
}

/// A shift of the logits rows is taken whole or not at all: it is taken exactly when it is not
/// switched off and all `n` rows behind it lie inside the buffer.
pub proof fn shifted_rows_lie_inside_the_buffer(
    n: usize,
    requested: usize,
    shift_disabled: bool,
    logits_bytes: usize,
    vocab: usize,
    r: usize,
)
    requires
        call_ensures(logits_row_base, (n, requested, shift_disabled, logits_bytes, vocab), r),
        0 < vocab,
    ensures
        r == requested || r == 0,
        r > 0 ==> !shift_disabled && (r + n) * vocab * 2 <= logits_bytes,
        !shift_disabled && (requested + n) * vocab * 2 <= logits_bytes ==> r == requested,
{
    let rows = requested + n;
    let width = vocab * 2;
    assert(rows * width == rows * vocab * 2) by (nonlinear_arith)
        requires
            width == vocab * 2,
    ;
    assert((rows <= logits_bytes as int / width) <==> rows * width <= logits_bytes)
        by (nonlinear_arith)
        requires
            width > 0,
            0 <= rows,
            0 <= logits_bytes,
    ;
}

/// The shift is switched off by `1` or by the word `true`, in any case of its letters, and by
/// nothing else; the batched kernels are switched off by `0` or by the word `false` alike.
pub proof fn switch_words_are_read_in_any_case(
    raw: Option<&str>,
    disabled: bool,
    enabled: bool,
)
    requires
        call_ensures(row_shift_disabled, (raw,), disabled),
        call_ensures(batched_enabled, (raw,), enabled),
    ensures
        disabled <==> (raw matches Some(s) && (s@ == seq!['1'] || (s@.len() == 4 && (s@[0] == 't'
            || s@[0] == 'T') && (s@[1] == 'r' || s@[1] == 'R') && (s@[2] == 'u' || s@[2] == 'U') && (
        s@[3] == 'e' || s@[3] == 'E')))),
        !enabled <==> (raw matches Some(s) && (s@ == seq!['0'] || (s@.len() == 5 && (s@[0] == 'f'
            || s@[0] == 'F') && (s@[1] == 'a' || s@[1] == 'A') && (s@[2] == 'l' || s@[2] == 'L') && (
        s@[3] == 's' || s@[3] == 'S') && (s@[4] == 'e' || s@[4] == 'E')))),
        !(disabled && !enabled),
{
    if raw is Some {
        assert(seq!['1'][0] == '1' && seq!['0'][0] == '0');
        assert(seq!['1'].len() == 1 && seq!['0'].len() == 1);
    }
}

/// Several streams take the batched kernels exactly when all their chunks fit the arena, the
/// kernels are on and the batch is eligible; the first chunk that does not fit stops them, and a
/// single stream with no shift needs neither.
pub proof fn streams_take_the_route_they_fit(
    chunk_lens: &[usize],
    row_base: usize,
    arena_cap: usize,
    kernels_enabled: bool,
    eligible: bool,
    r: BatchRoute,
    i: int,
)
    requires
        call_ensures(
            batch_route,
            (chunk_lens, row_base, arena_cap, kernels_enabled, eligible),
            r,
        ),
        0 <= i < chunk_lens@.len(),
    ensures
        !(r is Empty),
        r is Single <==> chunk_lens@.len() == 1 && row_base == 0,
        r is Kernel ==> kernels_enabled && eligible && chunk_lens@[i] <= arena_cap,
        r is PerStream ==> !(kernels_enabled && eligible) && chunk_lens@[i] <= arena_cap,
        !(r is Single) && chunk_lens@[i] > arena_cap ==> r is TooLong,
        r matches BatchRoute::TooLong { stream, chunk_len } ==> {
            &&& stream < chunk_lens@.len()
            &&& chunk_len == chunk_lens@[stream as int]
            &&& chunk_len > arena_cap
            &&& i < stream ==> chunk_lens@[i] <= arena_cap
        },
{
    if !(r is Single) && chunk_lens@[i] > arena_cap {
        assert(!(chunk_lens@[i] <= arena_cap));
    }
}

/// A completed batch returns its logits, one that was not admitted runs stream by stream, and one
/// that failed after admission is never run again.
pub proof fn failed_batches_are_not_retried(outcome: KernelOutcome, r: AfterKernel)
    requires
        call_ensures(after_kernel, (outcome,), r),
    ensures
        r is PerStream <==> outcome is NotAdmitted,
        r is Return <==> outcome is Completed,
        r is Fail <==> outcome is Failed,
{
}

/// Each stream's result is its own: its logits if it ran, and the null address if it failed,
/// whatever became of the others.
pub proof fn results_stay_with_their_stream(
    outcomes: &Vec<Option<DevicePtr>>,
    r: Vec<DevicePtr>,
    i: int,
)
    requires
        call_ensures(isolate_failures, (outcomes,), r),
        0 <= i < outcomes@.len(),
    ensures
        r@.len() == outcomes@.len(),
        outcomes@[i] is Some ==> Some(r@[i]) == outcomes@[i],
        outcomes@[i] is None ==> r@[i].0 == 0,
{
}

/// A prefilled chunk leaves its own tokens at the sequence's end, the length at the chunk's end,
/// and the number of whole blocks of all tokens as the latest checkpoint; nothing else changes.
pub proof fn chunks_are_recorded_whole(
    seq: &mut SequenceState,
    tokens: &[u32],
    chunk_start: usize,
    chunk_len: usize,
    bs: usize,
    i: int,
)
    requires
        call_ensures(commit_chunk, (seq, tokens, chunk_start, chunk_len, bs), ()),
        chunk_start + chunk_len <= tokens@.len(),
        bs > 0,
    ensures
        final(seq).tokens@.len() == old(seq).tokens@.len() + chunk_len,
        0 <= i < old(seq).tokens@.len() ==> final(seq).tokens@[i] == old(seq).tokens@[i],
        0 <= i < chunk_len ==> final(seq).tokens@[old(seq).tokens@.len() + i] == tokens@[chunk_start
            + i],
        final(seq).seq_len == chunk_start + chunk_len,
        final(seq).last_decode_ckpt_block * bs <= final(seq).tokens@.len(),
        final(seq).tokens@.len() < (final(seq).last_decode_ckpt_block + 1) * bs,
        *final(seq) == (SequenceState {
            tokens: final(seq).tokens,
            seq_len: final(seq).seq_len,
            last_decode_ckpt_block: final(seq).last_decode_ckpt_block,
            ..*old(seq)
        }),
{
    assert(tokens.len() == tokens@.len());
    let n = final(seq).tokens@.len() as int;
    let b = bs as int;
    let q = n / b;
    assert(final(seq).tokens.len() == n);
    assert(0 <= q <= n && q * b <= n < (q + 1) * b) by (nonlinear_arith)
        requires
            q == n / b,
            0 <= n,
            0 < b,
    ;
}

/// There is one result per stream, whatever the number of streams.
pub proof fn results_are_one_per_stream(outcomes: &Vec<Option<DevicePtr>>, r: Vec<DevicePtr>)
    requires
        call_ensures(isolate_failures, (outcomes,), r),
    ensures
        r@.len() == outcomes@.len(),
{
}

} // verus!
