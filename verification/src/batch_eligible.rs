//! Admission of streams to the kernel-batched prefill, whose streams share one loop over the
//! layers: their shapes, the arena and scratch they need, and what of the prefix cache they may
//! reserve.

use vstd::prelude::*;

use crate::prefix_match::PrefixMatch;

verus! {

/// Whether the model uses latent attention, which the batched path rejects.
pub fn config_is_mla(kv_lora_rank: usize) -> (r: bool)
    ensures
        r == (kv_lora_rank > 0),
{
    kv_lora_rank > 0
}

/// One stream as admission sees it.
#[derive(Clone, Copy, Debug)]
pub struct StreamShape {
    pub chunk_len: usize,
    /// Tokens the stream will stage.
    pub eff_len: usize,
    pub chunk_start: usize,
    pub is_last: bool,
}

/// Tokens a stream will stage: its chunk, or with the effective charge the chunk without its
/// cached prefix. A cached last chunk still stages the token whose logits it gives.
pub open spec fn effective_len_spec(
    effective_charge: bool,
    chunk_len: int,
    chunk_start: int,
    is_last: bool,
    matched: int,
) -> int {
    if !effective_charge {
        chunk_len
    } else {
        let skip = if matched <= chunk_start {
            0
        } else if matched - chunk_start < chunk_len {
            matched - chunk_start
        } else {
            chunk_len
        };
        if chunk_len - skip == 0 && is_last {
            1
        } else {
            chunk_len - skip
        }
    }
}

/// Tokens a stream will stage.
pub fn effective_len(
    effective_charge: bool,
    chunk_len: usize,
    chunk_start: usize,
    is_last: bool,
    matched: usize,
) -> (r: usize)
    ensures
        r == effective_len_spec(
            effective_charge,
            chunk_len as int,
            chunk_start as int,
            is_last,
            matched as int,
        ),
{
    if !effective_charge {
        return chunk_len;
    }
    let skip: usize = embed_skip(true, matched, chunk_start, chunk_len);
    if chunk_len - skip == 0 && is_last {
        1
    } else {
        chunk_len - skip
    }
}

/// Tokens of a chunk that are not embedded because the cached prefix covers them.
pub fn embed_skip(effective_charge: bool, matched: usize, chunk_start: usize, chunk_len: usize) -> (r:
    usize)
    ensures
        r == if !effective_charge || matched <= chunk_start {
            0
        } else if matched - chunk_start < chunk_len {
            matched - chunk_start
        } else {
            chunk_len as int
        },
        r <= chunk_len,
{
    if !effective_charge {
        return 0;
    }
    let past: usize = matched.saturating_sub(chunk_start);
    if past < chunk_len {
        past
    } else {
        chunk_len
    }
}

/// Staged tokens of the first `n` streams.
pub open spec fn sum_eff(s: Seq<StreamShape>, n: int) -> int
    decreases n,
{
    if n <= 0 {
        0
    } else {
        sum_eff(s, n - 1) + s[n - 1].eff_len
    }
}

/// The most staged tokens of any of the first `n` streams.
pub open spec fn max_eff(s: Seq<StreamShape>, n: int) -> int
    decreases n,
{
    if n <= 0 {
        0
    } else {
        let rest = max_eff(s, n - 1);
        if rest < s[n - 1].eff_len {
            s[n - 1].eff_len as int
        } else {
            rest
        }
    }
}

/// Streams that can share one pass: the same start and the same end, each with something to
/// stage, and the same length unless lengths may differ.
pub open spec fn shapes_match(s: Seq<StreamShape>, varlen: bool) -> bool {
    forall|i: int|
        0 <= i < s.len() ==> {
            &&& (#[trigger] s[i]).eff_len > 0
            &&& s[i].chunk_start == s[0].chunk_start
            &&& s[i].is_last == s[0].is_last
            &&& varlen || s[i].chunk_len == s[0].chunk_len
        }
}

/// What the device runtime is asked for the scratch bytes of a batch.
#[derive(Clone, Copy, Debug, PartialEq, Eq, Structural)]
pub enum ScratchRequest {
    /// `n` streams of `chunk` tokens each.
    Uniform { n: usize, chunk: usize },
    /// `n` streams of `total` tokens together, the longest of `max_chunk`.
    Packed { n: usize, total: usize, max_chunk: usize },
}

/// The scratch request of a batch: by its packed total when lengths may differ, else by its
/// longest stream.
pub open spec fn scratch_request_spec(
    s: Seq<StreamShape>,
    n: usize,
    varlen: bool,
) -> ScratchRequest {
    let max_chunk = max_eff(s, s.len() as int) as usize;
    if varlen {
        ScratchRequest::Packed { n, total: sum_eff(s, s.len() as int) as usize, max_chunk }
    } else {
        ScratchRequest::Uniform { n, chunk: max_chunk }
    }
}

/// The scratch request of a batch, or `None` when its tokens exceed the address space.
pub fn scratch_request(streams: &[StreamShape], n: usize, varlen: bool) -> (r: Option<
    ScratchRequest,
>)
    ensures
        r == if sum_eff(streams@, streams@.len() as int) <= usize::MAX {
            Some(scratch_request_spec(streams@, n, varlen))
        } else {
            None
        },
{
    let mut total: usize = 0;
    let mut max_chunk: usize = 0;
    let mut i: usize = 0;
    while i < streams.len()
        invariant
            i <= streams@.len(),
            total == sum_eff(streams@, i as int),
            max_chunk == max_eff(streams@, i as int),
        decreases streams@.len() - i,
    {
        let eff: usize = streams[i].eff_len;
        if eff > usize::MAX - total {
            proof {
                lemma_sum_eff_mono(streams@, i + 1, streams@.len() as int);
            }
            return None;
        }
        total = total + eff;
        if eff > max_chunk {
            max_chunk = eff;
        }
        i = i + 1;
    }
    if varlen {
        Some(ScratchRequest::Packed { n, total, max_chunk })
    } else {
        Some(ScratchRequest::Uniform { n, chunk: max_chunk })
    }
}

/// The admission rules, with `scratch_needed` the answer to the batch's scratch request.
pub open spec fn eligible_spec(
    s: Seq<StreamShape>,
    n: int,
    arena_cap: int,
    is_mla: bool,
    head_dim: int,
    scratch_cap: int,
    scratch_needed: int,
    allow_chunk_zero: bool,
    varlen: bool,
) -> bool {
    &&& n >= 2
    &&& !is_mla
    &&& head_dim <= 256
    &&& s.len() > 0
    &&& shapes_match(s, varlen)
    &&& s[0].chunk_start == 0 ==> allow_chunk_zero
    &&& sum_eff(s, s.len() as int) <= arena_cap
    &&& scratch_needed <= scratch_cap
}

proof fn lemma_sum_eff_mono(s: Seq<StreamShape>, a: int, b: int)
    requires
        0 <= a <= b <= s.len(),
    ensures
        0 <= sum_eff(s, a) <= sum_eff(s, b),
        0 <= max_eff(s, a) <= sum_eff(s, a),
    decreases b,
{
    if b > 0 {
        if a == b {
            lemma_sum_eff_mono(s, a - 1, b - 1);
        } else {
            lemma_sum_eff_mono(s, a, b - 1);
        }
    }
}

/// Whether the kernel-batched path may take these streams.
///
/// At least two streams, no latent attention, head dimension up to 256, matching shapes, chunk 0
/// only when that is allowed, the staged tokens within the arena, and `scratch_needed`, what the
/// device runtime answered to [`scratch_request`], within the scratch buffer. Nothing has been
/// changed when a batch is rejected.
pub fn check_kernel_batched_eligible(
    streams: &[StreamShape],
    n: usize,
    arena_cap: usize,
    is_mla: bool,
    head_dim: usize,
    scratch_cap: usize,
    scratch_needed: usize,
    allow_chunk_zero: bool,
    varlen: bool,
) -> (r: bool)
    ensures
        r == eligible_spec(
            streams@,
            n as int,
            arena_cap as int,
            is_mla,
            head_dim as int,
            scratch_cap as int,
            scratch_needed as int,
            allow_chunk_zero,
            varlen,
        ),
{
    if n < 2 || is_mla || head_dim > 256 || streams.len() == 0 {
        return false;
    }
    let first: StreamShape = streams[0];
    let mut total: usize = 0;
    let mut i: usize = 0;
    while i < streams.len()
        invariant
            n >= 2,
            streams@.len() > 0,
            first == streams@[0],
            i <= streams@.len(),
            total == sum_eff(streams@, i as int),
            total <= arena_cap || i == 0,
            forall|j: int|
                0 <= j < i ==> {
                    &&& (#[trigger] streams@[j]).eff_len > 0
                    &&& streams@[j].chunk_start == first.chunk_start
                    &&& streams@[j].is_last == first.is_last
                    &&& varlen || streams@[j].chunk_len == first.chunk_len
                },
        decreases streams@.len() - i,
    {
        let s: StreamShape = streams[i];
        if (!varlen && s.chunk_len != first.chunk_len) || s.chunk_start != first.chunk_start
            || s.is_last != first.is_last || s.eff_len == 0 {
            assert(!shapes_match(streams@, varlen)) by {
                let bad = streams@[i as int];
                assert(bad == s);
            }
            return false;
        }
        if s.eff_len > arena_cap || total > arena_cap - s.eff_len {
            proof {
                lemma_sum_eff_mono(streams@, i + 1, streams@.len() as int);
                lemma_sum_eff_mono(streams@, 0, i as int);
            }
            return false;
        }
        total = total + s.eff_len;
        i = i + 1;
    }
    if first.chunk_start == 0 && !allow_chunk_zero {
        return false;
    }
    scratch_needed <= scratch_cap
}

/// Whether two matches can share a batch: the same length and blocks, and nothing to restore.
pub open spec fn batch_compatible(m: PrefixMatch, first: PrefixMatch) -> bool {
    &&& m.matched_tokens == first.matched_tokens
    &&& m.matched_blocks@.len() == first.matched_blocks@.len()
    &&& m.matched_disk_block_ids@.len() == 0
    &&& m.ssm_snapshot is None
    &&& m.ssm_snapshot_tokens == 0
    &&& m.ssm_snapshot_tier_key is None
    &&& m.ssm_snapshot_tier_tokens == 0
}

/// Whether reserved prefix matches can share one stacked forward: there is one, it leaves part of
/// the chunk to process, and all have the same length and block count with no disk blocks and no
/// snapshot, resident or spilled.
pub fn cache_batch_matches_compatible(matches: &[PrefixMatch], chunk_len: usize) -> (r: bool)
    ensures
        r == (matches@.len() > 0 && matches@[0].matched_tokens < chunk_len && forall|i: int|
            0 <= i < matches@.len() ==> batch_compatible(#[trigger] matches@[i], matches@[0])),
{
    if matches.len() == 0 {
        return false;
    }
    let first: &PrefixMatch = &matches[0];
    if first.matched_tokens >= chunk_len {
        return false;
    }
    let mut i: usize = 0;
    while i < matches.len()
        invariant
            matches@.len() > 0,
            *first == matches@[0],
            i <= matches@.len(),
            forall|j: int| 0 <= j < i ==> batch_compatible(#[trigger] matches@[j], matches@[0]),
        decreases matches@.len() - i,
    {
        let m: &PrefixMatch = &matches[i];
        let ok: bool = m.matched_tokens == first.matched_tokens && m.matched_blocks.len()
            == first.matched_blocks.len() && m.matched_disk_block_ids.len() == 0
            && m.ssm_snapshot.is_none() && m.ssm_snapshot_tokens == 0
            && m.ssm_snapshot_tier_key.is_none() && m.ssm_snapshot_tier_tokens == 0;
        if !ok {
            assert(!batch_compatible(matches@[i as int], matches@[0]));
            return false;
        }
        i = i + 1;
    }
    true
}

/// Whether a model with recurrent layers may use the reservation: only when every match is cold.
/// Attention-only models are not restricted here.
pub fn batched_reserve_hybrid_ssm_ok(matches: &[PrefixMatch], hybrid_ssm: bool) -> (r: bool)
    ensures
        r == (!hybrid_ssm || forall|i: int|
            0 <= i < matches@.len() ==> (#[trigger] matches@[i]).matched_tokens == 0),
{
    if !hybrid_ssm {
        return true;
    }
    let mut i: usize = 0;
    while i < matches.len()
        invariant
            hybrid_ssm,
            i <= matches@.len(),
            forall|j: int| 0 <= j < i ==> (#[trigger] matches@[j]).matched_tokens == 0,
        decreases matches@.len() - i,
    {
        if matches[i].matched_tokens != 0 {
            assert(matches@[i as int].matched_tokens != 0);
            return false;
        }
        i = i + 1;
    }
    true
}

/// Removing a stream takes its tokens off the sum.
proof fn lemma_sum_remove(s: Seq<StreamShape>, at: int)
    requires
        0 <= at < s.len(),
    ensures
        sum_eff(s, s.len() as int) == sum_eff(s.remove(at), s.len() - 1) + s[at].eff_len,
    decreases s.len(),
{
    let n = s.len() as int;
    if at == n - 1 {
        lemma_sum_prefix(s, s.remove(at), n - 1);
    } else {
        lemma_sum_remove(s.drop_last(), at);
        lemma_sum_prefix(s, s.drop_last(), n - 1);
        let r = s.remove(at);
        assert(s.drop_last().remove(at) =~= r.drop_last());
        lemma_sum_prefix(r, r.drop_last(), n - 2);
        assert(r[n - 2] == s[n - 1]);
    }
}

proof fn lemma_sum_prefix(a: Seq<StreamShape>, b: Seq<StreamShape>, n: int)
    requires
        0 <= n <= a.len(),
        n <= b.len(),
        forall|i: int| 0 <= i < n ==> #[trigger] a[i] == b[i],
    ensures
        sum_eff(a, n) == sum_eff(b, n),
    decreases n,
{
    if n > 0 {
        lemma_sum_prefix(a, b, n - 1);
    }
}

proof fn lemma_sum_of_permutation(a: Seq<StreamShape>, b: Seq<StreamShape>)
    requires
        a.to_multiset() == b.to_multiset(),
    ensures
        a.len() == b.len(),
        sum_eff(a, a.len() as int) == sum_eff(b, b.len() as int),
    decreases a.len(),
{
    a.to_multiset_ensures();
    b.to_multiset_ensures();
    if a.len() > 0 {
        let x = a.last();
        assert(a.contains(x)) by {
            assert(a[a.len() - 1] == x);
        }
        assert(a.to_multiset().count(x) > 0);
        assert(b.contains(x));
        let at = b.index_of(x);
        let a2 = a.remove(a.len() - 1);
        let b2 = b.remove(at);
        assert(a2.to_multiset() =~= b2.to_multiset());
        lemma_sum_of_permutation(a2, b2);
        lemma_sum_remove(a, a.len() - 1);
        lemma_sum_remove(b, at);
    }
}

/// The largest length bounds every stream and is one stream's, or 0.
proof fn lemma_max_eff(s: Seq<StreamShape>, n: int)
    requires
        0 <= n <= s.len(),
    ensures
        forall|i: int| 0 <= i < n ==> (#[trigger] s[i]).eff_len <= max_eff(s, n),
        max_eff(s, n) == 0 || exists|i: int|
            0 <= i < n && (#[trigger] s[i]).eff_len == max_eff(s, n),
    decreases n,
{
    if n > 0 {
        lemma_max_eff(s, n - 1);
        if max_eff(s, n - 1) < s[n - 1].eff_len {
            assert(s[n - 1].eff_len == max_eff(s, n));
        }
    }
}

/// The largest length over `b` is no larger than that over `a` if every stream of `b` is in `a`.
proof fn lemma_max_of_subset(a: Seq<StreamShape>, b: Seq<StreamShape>)
    requires
        forall|i: int| 0 <= i < b.len() ==> a.contains(#[trigger] b[i]),
    ensures
        max_eff(b, b.len() as int) <= max_eff(a, a.len() as int),
{
    lemma_max_eff(a, a.len() as int);
    lemma_max_eff(b, b.len() as int);
    lemma_sum_eff_mono(a, a.len() as int, a.len() as int);
    if max_eff(b, b.len() as int) != 0 {
        let i = choose|i: int|
            0 <= i < b.len() && (#[trigger] b[i]).eff_len == max_eff(b, b.len() as int);
        let j = a.index_of(b[i]);
        assert(a[j].eff_len <= max_eff(a, a.len() as int));
    }
}

/// Streams that match keep matching in another order.
proof fn lemma_shapes_of_subset(a: Seq<StreamShape>, b: Seq<StreamShape>, varlen: bool)
    requires
        a.len() > 0,
        b.len() > 0,
        forall|i: int| 0 <= i < b.len() ==> a.contains(#[trigger] b[i]),
        shapes_match(a, varlen),
    ensures
        shapes_match(b, varlen),
        b[0].chunk_start == a[0].chunk_start,
{
    let j0 = a.index_of(b[0]);
    assert(a[j0].chunk_start == a[0].chunk_start);
    assert forall|i: int| 0 <= i < b.len() implies {
        &&& (#[trigger] b[i]).eff_len > 0
        &&& b[i].chunk_start == b[0].chunk_start
        &&& b[i].is_last == b[0].is_last
        &&& varlen || b[i].chunk_len == b[0].chunk_len
    } by {
        let j = a.index_of(b[i]);
        assert(a[j].eff_len > 0);
        assert(a[j].chunk_start == a[0].chunk_start);
    }
}

/// Admission does not depend on the order of the streams: a permutation of a batch asks for the
/// same scratch and is admitted exactly when the batch is.
pub proof fn admission_ignores_stream_order(
    a: Seq<StreamShape>,
    b: Seq<StreamShape>,
    n: usize,
    arena_cap: int,
    is_mla: bool,
    head_dim: int,
    scratch_cap: int,
    scratch_needed: int,
    allow_chunk_zero: bool,
    varlen: bool,
)
    requires
        a.to_multiset() == b.to_multiset(),
    ensures
        scratch_request_spec(a, n, varlen) == scratch_request_spec(b, n, varlen),
        eligible_spec(
            a,
            n as int,
            arena_cap,
            is_mla,
            head_dim,
            scratch_cap,
            scratch_needed,
            allow_chunk_zero,
            varlen,
        ) == eligible_spec(
            b,
            n as int,
            arena_cap,
            is_mla,
            head_dim,
            scratch_cap,
            scratch_needed,
            allow_chunk_zero,
            varlen,
        ),
{
    lemma_sum_of_permutation(a, b);
    a.to_multiset_ensures();
    b.to_multiset_ensures();
    assert forall|i: int| 0 <= i < b.len() implies a.contains(#[trigger] b[i]) by {
        assert(b.contains(b[i]));
        assert(b.to_multiset().count(b[i]) > 0);
    }
    assert forall|i: int| 0 <= i < a.len() implies b.contains(#[trigger] a[i]) by {
        assert(a.contains(a[i]));
        assert(a.to_multiset().count(a[i]) > 0);
    }
    lemma_max_of_subset(a, b);
    lemma_max_of_subset(b, a);
    if a.len() > 0 {
        if shapes_match(a, varlen) {
            lemma_shapes_of_subset(a, b, varlen);
        }
        if shapes_match(b, varlen) {
            lemma_shapes_of_subset(b, a, varlen);
        }
    }
}

/// The tokens of a batch are no more than its streams times its longest.
pub proof fn lemma_sum_bound(s: Seq<StreamShape>, n: int)
    requires
        0 <= n <= s.len(),
    ensures
        0 <= sum_eff(s, n) <= n * max_eff(s, n),
    decreases n,
{
    if n > 0 {
        lemma_sum_bound(s, n - 1);
        let a = max_eff(s, n - 1);
        let b = max_eff(s, n);
        assert((n - 1) * a + b <= n * b) by (nonlinear_arith)
            requires
                a <= b,
                n >= 1,
        ;
    }
}

/// A stream stages the tokens of its chunk that no match covers: with the effective charge the
/// tokens past the match, and one for the logits of a covered last chunk; without it all of them.
pub proof fn streams_stage_what_no_match_covers(
    effective_charge: bool,
    chunk_len: usize,
    chunk_start: usize,
    is_last: bool,
    matched: usize,
    r: usize,
    skip: usize,
)
    requires
        call_ensures(effective_len, (effective_charge, chunk_len, chunk_start, is_last, matched), r),
        call_ensures(embed_skip, (effective_charge, matched, chunk_start, chunk_len), skip),
    ensures
        !effective_charge ==> r == chunk_len && skip == 0,
        effective_charge ==> {
            let end = chunk_start + chunk_len;
            let from = if matched > chunk_start {
                matched as int
            } else {
                chunk_start as int
            };
            &&& from < end ==> r == end - from && chunk_start + skip == from
            &&& from >= end ==> skip == chunk_len && r == if is_last {
                1int
            } else {
                0
            }
        },
{
}

/// Tokens of all streams together.
pub open spec fn all_staged(s: Seq<StreamShape>) -> int {
    s.fold_left(0int, |sum: int, x: StreamShape| sum + x.eff_len)
}

proof fn lemma_all_staged(s: Seq<StreamShape>, n: int)
    requires
        0 <= n <= s.len(),
    ensures
        all_staged(s.subrange(0, n)) == sum_eff(s, n),
    decreases n,
{
    if n > 0 {
        lemma_all_staged(s, n - 1);
        assert(s.subrange(0, n).drop_last() =~= s.subrange(0, n - 1));
    }
}

proof fn lemma_longest(s: Seq<StreamShape>, n: int)
    requires
        0 <= n <= s.len(),
    ensures
        forall|i: int| 0 <= i < n ==> (#[trigger] s[i]).eff_len <= max_eff(s, n),
        n > 0 && max_eff(s, n) > 0 ==> exists|i: int|
            0 <= i < n && (#[trigger] s[i]).eff_len == max_eff(s, n),
        0 <= max_eff(s, n) <= usize::MAX,
    decreases n,
{
    if n > 0 {
        lemma_longest(s, n - 1);
        if max_eff(s, n - 1) < s[n - 1].eff_len {
            assert(s[n - 1].eff_len == max_eff(s, n));
        }
    }
}

/// The scratch is asked for the batch as it will be staged: for the tokens of all streams and the
/// longest of them when lengths may differ, and for the longest times their number otherwise.
pub proof fn scratch_is_asked_for_what_is_staged(
    streams: &[StreamShape],
    n: usize,
    varlen: bool,
    r: Option<ScratchRequest>,
)
    requires
        call_ensures(scratch_request, (streams, n, varlen), r),
    ensures
        r is Some <==> all_staged(streams@) <= usize::MAX,
        r matches Some(ScratchRequest::Packed { n: m, total, max_chunk }) ==> {
            &&& varlen
            &&& m == n
            &&& total == all_staged(streams@)
            &&& forall|i: int|
                0 <= i < streams@.len() ==> (#[trigger] streams@[i]).eff_len <= max_chunk
            &&& max_chunk == 0 || exists|i: int|
                0 <= i < streams@.len() && (#[trigger] streams@[i]).eff_len == max_chunk
        },
        r matches Some(ScratchRequest::Uniform { n: m, chunk }) ==> {
            &&& !varlen
            &&& m == n
            &&& forall|i: int| 0 <= i < streams@.len() ==> (#[trigger] streams@[i]).eff_len <= chunk
            &&& chunk == 0 || exists|i: int|
                0 <= i < streams@.len() && (#[trigger] streams@[i]).eff_len == chunk
        },
{
    lemma_all_staged(streams@, streams@.len() as int);
    assert(streams@.subrange(0, streams@.len() as int) =~= streams@);
    lemma_longest(streams@, streams@.len() as int);
    lemma_sum_eff_mono(streams@, 0, streams@.len() as int);
}

/// Streams share one pass exactly when they can: two or more, no latent attention, heads no wider
/// than 256, all from one start and to one end, each with something to stage, all of one length
/// unless lengths may differ, chunk 0 only where that is allowed, and staged tokens and scratch
/// within their buffers.
pub proof fn admitted_streams_can_share_a_pass(
    streams: &[StreamShape],
    n: usize,
    arena_cap: usize,
    is_mla: bool,
    head_dim: usize,
    scratch_cap: usize,
    scratch_needed: usize,
    allow_chunk_zero: bool,
    varlen: bool,
    r: bool,
)
    requires
        call_ensures(
            check_kernel_batched_eligible,
            (
                streams,
                n,
                arena_cap,
                is_mla,
                head_dim,
                scratch_cap,
                scratch_needed,
                allow_chunk_zero,
                varlen,
            ),
            r,
        ),
    ensures
        r <==> {
            &&& 2 <= n
            &&& 0 < streams@.len()
            &&& !is_mla
            &&& head_dim <= 256
            &&& scratch_needed <= scratch_cap
            &&& all_staged(streams@) <= arena_cap
            &&& forall|i: int, j: int|
                0 <= i < streams@.len() && 0 <= j < streams@.len() ==> {
                    let (a, b) = (#[trigger] streams@[i], #[trigger] streams@[j]);
                    &&& a.eff_len > 0
                    &&& a.chunk_start == b.chunk_start
                    &&& a.is_last == b.is_last
                    &&& varlen || a.chunk_len == b.chunk_len
                    &&& a.chunk_start == 0 ==> allow_chunk_zero
                }
        },
{
    lemma_all_staged(streams@, streams@.len() as int);
    assert(streams@.subrange(0, streams@.len() as int) =~= streams@);
    if r {
        assert forall|i: int, j: int|
            0 <= i < streams@.len() && 0 <= j < streams@.len() implies ({
            let (a, b) = (#[trigger] streams@[i], #[trigger] streams@[j]);
            &&& a.eff_len > 0
            &&& a.chunk_start == b.chunk_start
            &&& a.is_last == b.is_last
            &&& varlen || a.chunk_len == b.chunk_len
            &&& a.chunk_start == 0 ==> allow_chunk_zero
        }) by {}
    } else if streams@.len() > 0 {
        let first = streams@[0];
        if !shapes_match(streams@, varlen) {
            let i = choose|i: int|
                0 <= i < streams@.len() && !({
                    &&& (#[trigger] streams@[i]).eff_len > 0
                    &&& streams@[i].chunk_start == streams@[0].chunk_start
                    &&& streams@[i].is_last == streams@[0].is_last
                    &&& varlen || streams@[i].chunk_len == streams@[0].chunk_len
                });
            assert(streams@[i] == streams@[i] && streams@[0] == first);
        } else {
            assert(streams@[0].chunk_start == first.chunk_start);
        }
    }
}

/// The latent-attention check goes by the rank alone; a model with recurrent layers reserves only
/// cold matches; and matches share a pass only if they are alike, leave something of the chunk,
/// and bring nothing to restore.
pub proof fn reserved_matches_are_alike(
    matches: &[PrefixMatch],
    chunk_len: usize,
    hybrid_ssm: bool,
    compatible: bool,
    cold_ok: bool,
    i: int,
)
    requires
        call_ensures(cache_batch_matches_compatible, (matches, chunk_len), compatible),
        call_ensures(batched_reserve_hybrid_ssm_ok, (matches, hybrid_ssm), cold_ok),
        0 <= i < matches@.len(),
    ensures
        compatible ==> {
            &&& matches@[i].matched_tokens == matches@[0].matched_tokens
            &&& matches@[i].matched_tokens < chunk_len
            &&& matches@[i].matched_blocks@.len() == matches@[0].matched_blocks@.len()
            &&& matches@[i].matched_disk_block_ids@.len() == 0
            &&& matches@[i].ssm_snapshot is None
            &&& matches@[i].ssm_snapshot_tokens == 0
            &&& matches@[i].ssm_snapshot_tier_key is None
            &&& matches@[i].ssm_snapshot_tier_tokens == 0
        },
        cold_ok && hybrid_ssm ==> matches@[i].matched_tokens == 0,
        !hybrid_ssm ==> cold_ok,
{
    if compatible {
        assert(batch_compatible(matches@[i], matches@[0]));
    }
    if cold_ok && hybrid_ssm {
        assert(matches@[i].matched_tokens == 0);
    }
}

/// Latent attention is what a positive rank of the compressed cache means.
pub proof fn latent_attention_has_a_rank(kv_lora_rank: usize, r: bool)
    requires
        call_ensures(config_is_mla, (kv_lora_rank,), r),
    ensures
        r <==> kv_lora_rank != 0,
{
}

/// Matches that are alike, leave something of the chunk and bring nothing to restore do share a
/// pass, and all cold ones are reserved by a model with recurrent layers; no match shares nothing.
pub proof fn alike_matches_share_a_pass(
    matches: &[PrefixMatch],
    chunk_len: usize,
    hybrid_ssm: bool,
    compatible: bool,
    cold_ok: bool,
)
    requires
        call_ensures(cache_batch_matches_compatible, (matches, chunk_len), compatible),
        call_ensures(batched_reserve_hybrid_ssm_ok, (matches, hybrid_ssm), cold_ok),
    ensures
        matches@.len() == 0 ==> !compatible,
        matches@.len() > 0 && matches@[0].matched_tokens < chunk_len && (forall|i: int|
            0 <= i < matches@.len() ==> {
                &&& (#[trigger] matches@[i]).matched_tokens == matches@[0].matched_tokens
                &&& matches@[i].matched_blocks@.len() == matches@[0].matched_blocks@.len()
                &&& matches@[i].matched_disk_block_ids@.len() == 0
                &&& matches@[i].ssm_snapshot is None
                &&& matches@[i].ssm_snapshot_tokens == 0
                &&& matches@[i].ssm_snapshot_tier_key is None
                &&& matches@[i].ssm_snapshot_tier_tokens == 0
            }) ==> compatible,
        (forall|i: int| 0 <= i < matches@.len() ==> (#[trigger] matches@[i]).matched_tokens == 0)
            ==> cold_ok,
{
}

} // verus!
