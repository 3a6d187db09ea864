//! Reserving the prefix matches of a batched prefill: the batch is taken or declined as a whole,
//! before any sequence is changed, and a declined reservation releases what it took.

use vstd::prelude::*;

use crate::batch_eligible::{
    batch_compatible, batched_reserve_hybrid_ssm_ok, cache_batch_matches_compatible,
};
use crate::prefix_match::PrefixMatch;

verus! {

/// How a reservation begins.
#[derive(Clone, Copy, Debug, PartialEq, Eq, Structural)]
pub enum ReserveEntry {
    /// Nothing has to be reserved.
    NotNeeded,
    /// The batch runs stream by stream.
    Declined,
    /// Look up every stream's prefix in turn.
    Lookup,
}

/// How a reservation begins. Only a chunk-0 batch with an active cache reserves. A multi-rank
/// world agrees on matches through a vote that a reservation does not take, so it declines.
pub fn reserve_entry(cache_active: bool, first_chunk_start: Option<usize>, multi_rank: bool) -> (r:
    ReserveEntry)
    ensures
        r == if !cache_active {
            ReserveEntry::NotNeeded
        } else if first_chunk_start is None {
            ReserveEntry::Declined
        } else if first_chunk_start->0 != 0 {
            ReserveEntry::NotNeeded
        } else if multi_rank {
            ReserveEntry::Declined
        } else {
            ReserveEntry::Lookup
        },
{
    if !cache_active {
        return ReserveEntry::NotNeeded;
    }
    match first_chunk_start {
        None => ReserveEntry::Declined,
        Some(start) => if start != 0 {
            ReserveEntry::NotNeeded
        } else if multi_rank {
            ReserveEntry::Declined
        } else {
            ReserveEntry::Lookup
        },
    }
}

/// Whether a stream declines the reservation: it has vision pads, or every prompt position has to
/// be scored.
pub fn stream_declines(vision: bool, collect_prompt_logprobs: Option<u8>) -> (r: bool)
    ensures
        r == (vision || collect_prompt_logprobs is Some),
{
    vision || collect_prompt_logprobs.is_some()
}

/// Whether the looked-up matches are reserved.
pub fn reserve_verdict(matches: &[PrefixMatch], hybrid_ssm: bool, chunk_len: usize) -> (r: bool)
    ensures
        r == ((!hybrid_ssm || forall|i: int|
            0 <= i < matches@.len() ==> (#[trigger] matches@[i]).matched_tokens == 0)
            && matches@.len() > 0 && matches@[0].matched_tokens < chunk_len && forall|i: int|
            0 <= i < matches@.len() ==> batch_compatible(#[trigger] matches@[i], matches@[0])),
{
    batched_reserve_hybrid_ssm_ok(matches, hybrid_ssm) && cache_batch_matches_compatible(
        matches,
        chunk_len,
    )
}

/// A release of the references a lookup took.
#[derive(Clone, Copy, Debug, PartialEq, Eq, Structural)]
pub struct MatchRelease {
    pub stream: usize,
    pub matched_tokens: usize,
}

/// The releases of the first `n` matches.
pub open spec fn releases_spec(matches: Seq<PrefixMatch>, n: int) -> Seq<MatchRelease>
    decreases n,
{
    if n <= 0 {
        Seq::empty()
    } else {
        let rest = releases_spec(matches, n - 1);
        if matches[n - 1].matched_tokens > 0 {
            rest.push(
                MatchRelease {
                    stream: (n - 1) as usize,
                    matched_tokens: matches[n - 1].matched_tokens,
                },
            )
        } else {
            rest
        }
    }
}

/// What a declined reservation releases: each stream's match that took references, no more than
/// it matched.
pub fn release_reservations(matches: &[PrefixMatch]) -> (r: Vec<MatchRelease>)
    ensures
        r@ == releases_spec(matches@, matches@.len() as int),
{
    let mut out: Vec<MatchRelease> = Vec::new();
    let mut i: usize = 0;
    while i < matches.len()
        invariant
            i <= matches@.len(),
            out@ == releases_spec(matches@, i as int),
        decreases matches@.len() - i,
    {
        let tokens: usize = matches[i].matched_tokens;
        if tokens > 0 {
            out.push(MatchRelease { stream: i, matched_tokens: tokens });
        }
        i = i + 1;
    }
    out
}

/// Every warm match is released: a match of stream `i` that took references is among the
/// releases, with its own length.
pub proof fn every_warm_match_is_released(matches: Seq<PrefixMatch>, n: int, i: int)
    requires
        0 <= i < n <= matches.len(),
        matches[i].matched_tokens > 0,
    ensures
        releases_spec(matches, n).contains(
            MatchRelease { stream: i as usize, matched_tokens: matches[i].matched_tokens },
        ),
    decreases n,
{
    let rest = releases_spec(matches, n - 1);
    let all = releases_spec(matches, n);
    let mine = MatchRelease { stream: i as usize, matched_tokens: matches[i].matched_tokens };
    if i == n - 1 {
        assert(all[rest.len() as int] == mine);
    } else {
        every_warm_match_is_released(matches, n - 1, i);
        let at = rest.index_of(mine);
        assert(all[at] == mine);
    }
}

/// A reservation is made exactly for a first chunk with an active cache on a single rank; a later
/// chunk and an inactive cache need none, and no stream or several ranks decline.
pub proof fn reservations_are_for_first_chunks(
    cache_active: bool,
    first_chunk_start: Option<usize>,
    multi_rank: bool,
    r: ReserveEntry,
)
    requires
        call_ensures(reserve_entry, (cache_active, first_chunk_start, multi_rank), r),
    ensures
        r is Lookup <==> cache_active && first_chunk_start == Some(0usize) && !multi_rank,
        r is NotNeeded <==> !cache_active || (first_chunk_start matches Some(s) && s > 0),
{
}

/// A stream with vision pads or with positions to score never reserves.
pub proof fn scored_and_vision_streams_decline(
    vision: bool,
    collect_prompt_logprobs: Option<u8>,
    r: bool,
)
    requires
        call_ensures(stream_declines, (vision, collect_prompt_logprobs), r),
    ensures
        vision ==> r,
        collect_prompt_logprobs is Some ==> r,
        r ==> vision || collect_prompt_logprobs is Some,
{
}

/// Matches are reserved together only if they can share one pass: all of one length, shorter than
/// the chunk, with as many blocks each, and with nothing to restore from disk or a snapshot; on a
/// model with recurrent layers only cold ones.
pub proof fn reserved_matches_share_one_pass(
    matches: &[PrefixMatch],
    hybrid_ssm: bool,
    chunk_len: usize,
    r: bool,
)
    requires
        call_ensures(reserve_verdict, (matches, hybrid_ssm, chunk_len), r),
    ensures
        r <==> {
            &&& matches@.len() > 0
            &&& forall|i: int|
                0 <= i < matches@.len() ==> {
                    let m = #[trigger] matches@[i];
                    &&& m.matched_tokens < chunk_len
                    &&& m.matched_tokens == matches@[0].matched_tokens
                    &&& m.matched_blocks@.len() == matches@[0].matched_blocks@.len()
                    &&& m.matched_disk_block_ids@.len() == 0
                    &&& m.ssm_snapshot is None
                    &&& m.ssm_snapshot_tokens == 0
                    &&& m.ssm_snapshot_tier_key is None
                    &&& m.ssm_snapshot_tier_tokens == 0
                    &&& hybrid_ssm ==> m.matched_tokens == 0
                }
        },
{
    if r {
        assert forall|i: int| 0 <= i < matches@.len() implies ({
            let m = #[trigger] matches@[i];
            &&& m.matched_tokens < chunk_len
            &&& m.matched_tokens == matches@[0].matched_tokens
            &&& m.matched_blocks@.len() == matches@[0].matched_blocks@.len()
            &&& m.matched_disk_block_ids@.len() == 0
            &&& m.ssm_snapshot is None
            &&& m.ssm_snapshot_tokens == 0
            &&& m.ssm_snapshot_tier_key is None
            &&& m.ssm_snapshot_tier_tokens == 0
            &&& hybrid_ssm ==> m.matched_tokens == 0
        }) by {
            assert(batch_compatible(matches@[i], matches@[0]));
        }
    } else if matches@.len() > 0 {
        let first = matches@[0];
        assert(first == matches@[0]);
    }
}

/// A declined reservation releases exactly what it took: one release for every match that holds
/// references, of its own stream and length, in stream order, and none for a cold one.
pub proof fn declined_reservations_release_their_matches(
    matches: &[PrefixMatch],
    r: Vec<MatchRelease>,
    x: int,
    i: int,
)
    requires
        call_ensures(release_reservations, (matches,), r),
    ensures
        0 <= x < r@.len() ==> {
            &&& r@[x].stream < matches@.len()
            &&& r@[x].matched_tokens == matches@[r@[x].stream as int].matched_tokens
            &&& r@[x].matched_tokens > 0
            &&& x > 0 ==> r@[x - 1].stream < r@[x].stream
        },
        0 <= i < matches@.len() && matches@[i].matched_tokens > 0 ==> r@.contains(
            MatchRelease { stream: i as usize, matched_tokens: matches@[i].matched_tokens },
        ),
{
    assert(matches.len() == matches@.len());
    lemma_releases(matches@, matches@.len() as int);
    if 0 <= i < matches@.len() && matches@[i].matched_tokens > 0 {
        every_warm_match_is_released(matches@, matches@.len() as int, i);
    }
}

proof fn lemma_releases(matches: Seq<PrefixMatch>, n: int)
    requires
        0 <= n <= matches.len() <= usize::MAX,
    ensures
        ({
            let r = releases_spec(matches, n);
            forall|x: int|
                0 <= x < r.len() ==> {
                    &&& (#[trigger] r[x]).stream < n
                    &&& r[x].matched_tokens == matches[r[x].stream as int].matched_tokens
                    &&& r[x].matched_tokens > 0
                    &&& x > 0 ==> r[x - 1].stream < r[x].stream
                }
        }),
    decreases n,
{
    if n > 0 {
        lemma_releases(matches, n - 1);
    }
}

} // verus!
