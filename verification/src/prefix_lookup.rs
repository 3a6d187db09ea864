//! The prefix-cache lookup of a prefill: what is looked up, what of the match the ranks agree on,
//! how the match enters the sequence, and where the prefill resumes.
//!
//! The caller asks [`lookup_entry`] first. When a match is needed it performs the lookup,
//! [`cap_match`] says whether the ranks' minimum cuts it, [`adopt_match`] enters it into the
//! sequence, [`decide_restore`] picks the snapshot all ranks agreed on, and [`finish_lookup`]
//! records where the prefill resumes once the restore has been made.

use vstd::prelude::*;

use crate::prefix_match::PrefixMatch;
use crate::prefix_reuse::{reused_prefix_tokens, reused_spec};
use crate::sequence_state::SequenceState;
use crate::snap_agree::{agree, agree_spec, skip_point, skip_point_spec};

verus! {

/// Where a chunk-0 match comes from.
#[derive(Clone, Copy, Debug, PartialEq, Eq, Structural)]
pub enum MatchSource {
    /// Nothing is looked up: the match is empty.
    Empty,
    /// A batched reservation already holds the match.
    Reserved,
    /// Ask the prefix cache.
    Lookup,
}

/// How a chunk's lookup begins.
#[derive(Clone, Copy, Debug, PartialEq, Eq, Structural)]
pub enum LookupEntry {
    /// The answer is known: where KV writing starts, and whether the prefix is skipped.
    Answer { kv_write_start: usize, skip: bool },
    /// Chunk 0 needs a match.
    NeedMatch { source: MatchSource },
}

/// How a chunk's lookup begins.
pub open spec fn lookup_entry_spec(
    seq: SequenceState,
    chunk_start: int,
    vision: bool,
    full_recompute: bool,
    reserved: bool,
) -> LookupEntry {
    if chunk_start == 0 && seq.prefix_lookup_applied {
        LookupEntry::Answer { kv_write_start: seq.marconi_skip_to, skip: seq.prefix_lookup_skip }
    } else if chunk_start == 0 {
        LookupEntry::NeedMatch {
            source: if vision || seq.collect_prompt_logprobs is Some || full_recompute {
                MatchSource::Empty
            } else if reserved {
                MatchSource::Reserved
            } else {
                MatchSource::Lookup
            },
        }
    } else if seq.marconi_skip_to > 0 {
        LookupEntry::Answer { kv_write_start: seq.marconi_skip_to, skip: true }
    } else {
        LookupEntry::Answer { kv_write_start: 0, skip: false }
    }
}

/// How a chunk's lookup begins. A second chunk-0 call replays the first decision, since the first
/// already took the matched blocks. Later chunks reuse chunk 0's skip point. Nothing is looked up
/// for a vision prompt, for prompt scoring, or when the attention cannot skip a prefix.
pub fn lookup_entry(
    seq: &SequenceState,
    chunk_start: usize,
    vision: bool,
    full_recompute: bool,
    reserved: bool,
) -> (r: LookupEntry)
    ensures
        r == lookup_entry_spec(*seq, chunk_start as int, vision, full_recompute, reserved),
{
    if chunk_start == 0 && seq.prefix_lookup_applied {
        return LookupEntry::Answer {
            kv_write_start: seq.marconi_skip_to,
            skip: seq.prefix_lookup_skip,
        };
    }
    if chunk_start == 0 {
        let source: MatchSource = if vision || seq.collect_prompt_logprobs.is_some()
            || full_recompute {
            MatchSource::Empty
        } else if reserved {
            MatchSource::Reserved
        } else {
            MatchSource::Lookup
        };
        LookupEntry::NeedMatch { source }
    } else if seq.marconi_skip_to > 0 {
        LookupEntry::Answer { kv_write_start: seq.marconi_skip_to, skip: true }
    } else {
        LookupEntry::Answer { kv_write_start: 0, skip: false }
    }
}

/// What the ranks' minimum does to a match.
#[derive(Clone, Copy, Debug, PartialEq, Eq, Structural)]
pub enum MatchCap {
    /// The match stands.
    Keep,
    /// Release the match and look up the first `tokens` tokens again.
    Shorten { tokens: usize },
    /// Release the match and go on with an empty one.
    Drop,
}

/// Whether the ranks vote on the matched length. A reservation was admitted as a whole and is
/// used as is.
pub fn match_is_voted(multi_rank: bool, reserved: bool) -> (r: bool)
    ensures
        r == (multi_rank && !reserved),
{
    multi_rank && !reserved
}

/// What the ranks' minimum `agreed` does to a match of `matched` tokens: different lengths would
/// give different token counts, and the collectives would not pair up.
pub fn cap_match(matched: usize, agreed: u32) -> (r: MatchCap)
    ensures
        r == if agreed >= matched {
            MatchCap::Keep
        } else if agreed > 0 {
            (MatchCap::Shorten { tokens: agreed as usize })
        } else {
            MatchCap::Drop
        },
{
    let agreed: usize = agreed as usize;
    if agreed < matched {
        if agreed > 0 {
            MatchCap::Shorten { tokens: agreed }
        } else {
            MatchCap::Drop
        }
    } else {
        MatchCap::Keep
    }
}

/// The smallest of the ranks' words.
pub fn min_word(words: &[u32]) -> (r: u32)
    requires
        words@.len() > 0,
    ensures
        words@.contains(r),
        forall|i: int| 0 <= i < words@.len() ==> r <= #[trigger] words@[i],
{
    let mut best: u32 = words[0];
    let mut i: usize = 1;
    while i < words.len()
        invariant
            1 <= i <= words@.len(),
            words@.contains(best),
            forall|j: int| 0 <= j < i ==> best <= #[trigger] words@[j],
        decreases words@.len() - i,
    {
        if words[i] < best {
            best = words[i];
        }
        i = i + 1;
    }
    best
}

/// Offload cursors raised to at least `total`.
pub open spec fn raised(cursors: Seq<u32>, total: u32) -> Seq<u32> {
    Seq::new(
        cursors.len(),
        |i: int|
            if cursors[i] < total {
                total
            } else {
                cursors[i]
            },
    )
}

/// The sequence after a match has entered it.
pub open spec fn adopted(
    before: SequenceState,
    m: PrefixMatch,
    tokens: Seq<u32>,
    total: usize,
    after: SequenceState,
) -> bool {
    &&& after == (SequenceState {
        cached_prefix_tokens: m.matched_tokens,
        cached_prefix_blocks: m.matched_blocks@.len() as usize,
        tail_checkpoint_tokens: None,
        prompt_len: total,
        prefix_ref_tokens: after.prefix_ref_tokens,
        block_table: after.block_table,
        disk_block_ids: after.disk_block_ids,
        disk_last_offloaded_per_layer: after.disk_last_offloaded_per_layer,
        ..before
    })
    &&& after.prefix_ref_tokens@ == tokens.subrange(0, m.matched_tokens as int)
    &&& after.block_table@ == before.block_table@ + m.matched_blocks@
    &&& after.disk_block_ids@ == before.disk_block_ids@ + m.matched_disk_block_ids@
    &&& after.disk_last_offloaded_per_layer@ == raised(
        before.disk_last_offloaded_per_layer@,
        after.disk_block_ids@.len() as u32,
    )
}

/// Append `words` to `out`.
pub fn push_words(out: &mut Vec<u32>, words: &Vec<u32>)
    ensures
        final(out)@ == old(out)@ + words@,
{
    let mut i: usize = 0;
    while i < words.len()
        invariant
            i <= words@.len(),
            out@ == old(out)@ + words@.subrange(0, i as int),
        decreases words@.len() - i,
    {
        out.push(words[i]);
        i = i + 1;
        assert(out@ =~= old(out)@ + words@.subrange(0, i as int));
    }
    assert(words@.subrange(0, i as int) =~= words@);
}

/// Enter a match into the sequence.
///
/// Its blocks and disk ids are appended, every layer counts the matched blocks as offloaded, and
/// the matched tokens are kept so that their references can be released even if the prefill
/// fails. A tail checkpoint of an earlier turn is forgotten.
pub fn adopt_match(seq: &mut SequenceState, tokens: &[u32], total: usize, m: &PrefixMatch)
    requires
        m.matched_tokens <= tokens@.len(),
    ensures
        adopted(*old(seq), *m, tokens@, total, *final(seq)),
{
    seq.cached_prefix_tokens = m.matched_tokens;
    seq.cached_prefix_blocks = m.matched_blocks.len();
    seq.tail_checkpoint_tokens = None;
    let mut refs: Vec<u32> = Vec::new();
    let mut i: usize = 0;
    while i < m.matched_tokens
        invariant
            m.matched_tokens <= tokens@.len(),
            i <= m.matched_tokens,
            refs@ == tokens@.subrange(0, i as int),
        decreases m.matched_tokens - i,
    {
        refs.push(tokens[i]);
        i = i + 1;
        assert(refs@ =~= tokens@.subrange(0, i as int));
    }
    seq.prefix_ref_tokens = refs;
    seq.prompt_len = total;
    push_words(&mut seq.block_table, &m.matched_blocks);
    push_words(&mut seq.disk_block_ids, &m.matched_disk_block_ids);
    let new_total: u32 = seq.disk_block_ids.len() as u32;
    let ghost cursors = seq.disk_last_offloaded_per_layer@;
    let mut raised_cursors: Vec<u32> = Vec::new();
    let mut j: usize = 0;
    while j < seq.disk_last_offloaded_per_layer.len()
        invariant
            cursors == seq.disk_last_offloaded_per_layer@,
            j <= cursors.len(),
            raised_cursors@ == raised(cursors, new_total).subrange(0, j as int),
        decreases cursors.len() - j,
    {
        let cursor: u32 = seq.disk_last_offloaded_per_layer[j];
        raised_cursors.push(
            if cursor < new_total {
                new_total
            } else {
                cursor
            },
        );
        j = j + 1;
        assert(raised_cursors@ =~= raised(cursors, new_total).subrange(0, j as int));
    }
    assert(raised_cursors@ =~= raised(cursors, new_total));
    seq.disk_last_offloaded_per_layer = raised_cursors;
}

/// The depth the ranks agree to restore: the vote of a multi-rank world with recurrent layers,
/// else this rank's own proposal.
pub fn agreed_depth(multi_rank: bool, has_ssm: bool, proposal: u32, votes: &[u32]) -> (r: Option<u32>)
    ensures
        r == if multi_rank && has_ssm {
            agree_spec(votes@)
        } else {
            agree_spec(seq![proposal])
        },
{
    if multi_rank && has_ssm {
        agree(votes)
    } else {
        let own: [u32; 1] = [proposal];
        let r: Option<u32> = agree(&own);
        assert(own@ =~= seq![proposal]);
        r
    }
}

/// A restore that the ranks agreed on.
#[derive(Clone, Copy, Debug, PartialEq, Eq, Structural)]
pub struct Restore {
    pub snapshot: usize,
    pub depth: usize,
}

/// The ranks agreed on a depth that is not this rank's candidate.
#[derive(Clone, Copy, Debug, PartialEq, Eq, Structural)]
pub struct AgreementBroken {
    pub agreed: u32,
}

/// The snapshot to restore, or `None` to recompute. An agreed depth that is not this rank's
/// candidate is an error: its own proposal was part of the agreement.
pub fn decide_restore(agreed: Option<u32>, eff_snapshot: Option<usize>, eff_tokens: usize) -> (r: Result<
    Option<Restore>,
    AgreementBroken,
>)
    ensures
        r == match agreed {
            None => Ok::<Option<Restore>, AgreementBroken>(None),
            Some(t) => if eff_snapshot is Some && t == eff_tokens {
                Ok::<Option<Restore>, AgreementBroken>(
                    Some(Restore { snapshot: eff_snapshot->0, depth: eff_tokens }),
                )
            } else {
                Err::<Option<Restore>, AgreementBroken>(AgreementBroken { agreed: t })
            },
        },
{
    match agreed {
        None => Ok(None),
        Some(t) => match eff_snapshot {
            Some(snapshot) => if t as usize == eff_tokens {
                Ok(Some(Restore { snapshot, depth: eff_tokens }))
            } else {
                Err(AgreementBroken { agreed: t })
            },
            None => Err(AgreementBroken { agreed: t }),
        },
    }
}

/// Whether the prefix is skipped: after a restore, or on any match without recurrent layers.
pub open spec fn skips(restore: Option<Restore>, matched: usize, has_ssm: bool) -> bool {
    restore is Some || (matched > 0 && !has_ssm)
}

/// Where the prefill resumes.
pub open spec fn resume_at(
    restore: Option<Restore>,
    matched: usize,
    total: usize,
    has_ssm: bool,
) -> usize {
    skip_point_spec(
        skips(restore, matched, has_ssm),
        match restore {
            Some(r) => r.depth,
            None => 0,
        },
        matched,
        total,
        has_ssm,
    )
}

/// The sequence after a finished chunk-0 lookup.
pub open spec fn lookup_finished(
    before: SequenceState,
    restore: Option<Restore>,
    matched: usize,
    total: usize,
    has_ssm: bool,
    after: SequenceState,
) -> bool {
    let resume = resume_at(restore, matched, total, has_ssm);
    let skip = skips(restore, matched, has_ssm);
    after == (SequenceState {
        tail_checkpoint_tokens: match restore {
            Some(s) => Some(s.depth),
            None => before.tail_checkpoint_tokens,
        },
        marconi_exact_snap: if restore is Some && restore->0.depth >= matched && matched == total {
            Some(restore->0.snapshot)
        } else {
            before.marconi_exact_snap
        },
        marconi_skip_to: resume,
        reused_prefix_tokens: reused_spec(matched as int, resume as int, skip) as usize,
        prefix_lookup_skip: skip,
        prefix_lookup_applied: true,
        ..before
    })
}

/// Record the outcome of a chunk-0 lookup, after the restore, if any, has been made.
///
/// The restored depth is this prefill's tail checkpoint. A restore that covers the whole matched
/// prompt is flagged, since its last token is run a second time for logits.
pub fn finish_lookup(
    seq: &mut SequenceState,
    restore: Option<Restore>,
    matched: usize,
    total: usize,
    has_ssm: bool,
) -> (r: (usize, bool))
    ensures
        r.0 == resume_at(restore, matched, total, has_ssm),
        r.1 == skips(restore, matched, has_ssm),
        lookup_finished(*old(seq), restore, matched, total, has_ssm, *final(seq)),
{
    let mut skip: bool = false;
    let mut depth: usize = 0;
    if let Some(s) = restore {
        seq.tail_checkpoint_tokens = Some(s.depth);
        if s.depth >= matched && matched == total {
            seq.marconi_exact_snap = Some(s.snapshot);
        }
        depth = s.depth;
        skip = true;
    }
    if matched > 0 && !skip && !has_ssm {
        skip = true;
    }
    let skip_tokens: usize = skip_point(skip, depth, matched, total, has_ssm);
    seq.marconi_skip_to = skip_tokens;
    seq.reused_prefix_tokens = reused_prefix_tokens(matched, skip_tokens, skip);
    seq.prefix_lookup_skip = skip;
    seq.prefix_lookup_applied = true;
    (skip_tokens, skip)
}

/// A retried chunk 0 gets the first answer again, without another match: whatever the retry's
/// circumstances, the entry replays what the finished lookup returned.
pub proof fn retry_replays_the_first_answer(
    before: SequenceState,
    restore: Option<Restore>,
    matched: usize,
    total: usize,
    has_ssm: bool,
    after: SequenceState,
    vision: bool,
    full_recompute: bool,
    reserved: bool,
)
    requires
        lookup_finished(before, restore, matched, total, has_ssm, after),
    ensures
        lookup_entry_spec(after, 0, vision, full_recompute, reserved) == (LookupEntry::Answer {
            kv_write_start: resume_at(restore, matched, total, has_ssm),
            skip: skips(restore, matched, has_ssm),
        }),
{
}

/// Later chunks resume where chunk 0 did, and skip exactly when it resumed past the start.
pub proof fn later_chunks_reuse_the_skip_point(
    before: SequenceState,
    restore: Option<Restore>,
    matched: usize,
    total: usize,
    has_ssm: bool,
    after: SequenceState,
    chunk_start: int,
    vision: bool,
    full_recompute: bool,
    reserved: bool,
)
    requires
        chunk_start > 0,
        lookup_finished(before, restore, matched, total, has_ssm, after),
    ensures
        ({
            let resume = resume_at(restore, matched, total, has_ssm);
            lookup_entry_spec(after, chunk_start, vision, full_recompute, reserved) == (
            LookupEntry::Answer { kv_write_start: resume, skip: resume > 0 })
        }),
{
}

/// Ranks that hold different snapshot slots resume at the same token: with the same agreed depth,
/// match and prompt, the resume point and the replay length are the same.
pub proof fn ranks_resume_alike(
    a: Option<Restore>,
    b: Option<Restore>,
    matched: usize,
    total: usize,
    has_ssm: bool,
)
    requires
        a is Some == b is Some,
        a is Some ==> a->0.depth == b->0.depth,
    ensures
        resume_at(a, matched, total, has_ssm) == resume_at(b, matched, total, has_ssm),
        skips(a, matched, has_ssm) == skips(b, matched, has_ssm),
{
}

/// The resume point never lies past the prompt.
pub proof fn resume_point_is_inside_prompt(
    restore: Option<Restore>,
    matched: usize,
    total: usize,
    has_ssm: bool,
)
    requires
        matched <= total,
        restore is Some ==> restore->0.depth <= total,
    ensures
        resume_at(restore, matched, total, has_ssm) <= total,
{
}

/// A first chunk 0 asks for a match, from the cache unless a reservation holds one; it goes on
/// with nothing exactly for a vision prompt, for prompt scoring, or when no prefix can be
/// skipped. Every other chunk has its answer: the skip point chunk 0 left, skipped if it is past
/// the start.
pub proof fn only_a_first_chunk_asks_for_a_match(
    seq: &SequenceState,
    chunk_start: usize,
    vision: bool,
    full_recompute: bool,
    reserved: bool,
    r: LookupEntry,
)
    requires
        call_ensures(lookup_entry, (seq, chunk_start, vision, full_recompute, reserved), r),
    ensures
        r is NeedMatch <==> chunk_start == 0 && !seq.prefix_lookup_applied,
        r matches LookupEntry::NeedMatch { source } ==> {
            &&& source is Empty <==> vision || full_recompute || seq.collect_prompt_logprobs is Some
            &&& source is Reserved ==> reserved
            &&& source is Lookup ==> !reserved
        },
        r matches LookupEntry::Answer { kv_write_start, skip } ==> {
            &&& kv_write_start == seq.marconi_skip_to
            &&& chunk_start > 0 ==> (skip <==> seq.marconi_skip_to > 0)
            &&& chunk_start == 0 ==> skip == seq.prefix_lookup_skip
        },
{
}

/// A finished lookup is remembered: a retry of chunk 0 and every later chunk resume where it
/// said, whatever their circumstances, and no second match is taken.
pub proof fn later_entries_repeat_the_lookup(
    seq: &mut SequenceState,
    restore: Option<Restore>,
    matched: usize,
    total: usize,
    has_ssm: bool,
    r: (usize, bool),
    chunk_start: usize,
    vision: bool,
    full_recompute: bool,
    reserved: bool,
    again: LookupEntry,
)
    requires
        call_ensures(finish_lookup, (seq, restore, matched, total, has_ssm), r),
        call_ensures(
            lookup_entry,
            (final(seq), chunk_start, vision, full_recompute, reserved),
            again,
        ),
    ensures
        again matches LookupEntry::Answer { kv_write_start, skip } && kv_write_start == r.0 && (
        chunk_start == 0 ==> skip == r.1) && (chunk_start > 0 ==> (skip <==> r.0 > 0)),
{
}

/// A prefill resumes where its state is: with recurrent layers exactly at the restored depth, and
/// at the start without a restore; without recurrent layers exactly past the match. What is
/// reported as reused lies inside the match and before the resume point.
pub proof fn prefill_resumes_where_its_state_is(
    seq: &mut SequenceState,
    restore: Option<Restore>,
    matched: usize,
    total: usize,
    has_ssm: bool,
    r: (usize, bool),
)
    requires
        call_ensures(finish_lookup, (seq, restore, matched, total, has_ssm), r),
    ensures
        has_ssm ==> r.0 == (match restore {
            Some(s) => s.depth,
            None => 0,
        }),
        has_ssm ==> (r.1 <==> restore is Some),
        !has_ssm && restore is None ==> r.0 == matched && (r.1 <==> matched > 0),
        !has_ssm && restore is Some ==> r.0 == matched && r.1,
        final(seq).marconi_skip_to == r.0,
        final(seq).prefix_lookup_skip == r.1,
        final(seq).prefix_lookup_applied,
        final(seq).reused_prefix_tokens <= matched,
        final(seq).reused_prefix_tokens <= r.0,
        final(seq).reused_prefix_tokens == matched || final(seq).reused_prefix_tokens == r.0,
{
}

/// A restore is remembered as the prefill's tail checkpoint at its own depth, and its snapshot is
/// kept for the last token exactly when it covers a prompt that matched whole. The rest of the
/// sequence stays.
pub proof fn restores_are_remembered(
    seq: &mut SequenceState,
    restore: Option<Restore>,
    matched: usize,
    total: usize,
    has_ssm: bool,
    r: (usize, bool),
)
    requires
        call_ensures(finish_lookup, (seq, restore, matched, total, has_ssm), r),
    ensures
        restore matches Some(s) ==> final(seq).tail_checkpoint_tokens == Some(s.depth),
        restore is None ==> final(seq).tail_checkpoint_tokens == old(seq).tail_checkpoint_tokens,
        restore is Some && matched == total && restore->0.depth >= matched
            ==> final(seq).marconi_exact_snap == Some(restore->0.snapshot),
        !(restore is Some && matched == total && restore->0.depth >= matched)
            ==> final(seq).marconi_exact_snap == old(seq).marconi_exact_snap,
        final(seq).tokens == old(seq).tokens,
        final(seq).seq_len == old(seq).seq_len,
        final(seq).block_table == old(seq).block_table,
        final(seq).disk_block_ids == old(seq).disk_block_ids,
        final(seq).cached_prefix_tokens == old(seq).cached_prefix_tokens,
        final(seq).kv_valid_tokens == old(seq).kv_valid_tokens,
{
}

/// Every rank goes on with the shortest of all matches: the kept length is the smaller of its own
/// and the agreed one.
pub proof fn matches_are_cut_to_the_agreed_length(matched: usize, agreed: u32, r: MatchCap)
    requires
        call_ensures(cap_match, (matched, agreed), r),
    ensures
        ({
            let kept = match r {
                MatchCap::Keep => matched as int,
                MatchCap::Shorten { tokens } => tokens as int,
                MatchCap::Drop => 0,
            };
            &&& kept <= matched
            &&& kept <= agreed
            &&& kept == matched || kept == agreed
            &&& r is Keep <==> matched <= agreed
            &&& r is Drop ==> agreed == 0
        }),
{
}

/// The ranks vote exactly in a multi-rank world without a reservation, and the vote is the
/// smallest word, so it exceeds no rank's.
pub proof fn the_vote_is_the_smallest_word(
    multi_rank: bool,
    reserved: bool,
    voted: bool,
    words: &[u32],
    r: u32,
    i: int,
)
    requires
        call_ensures(match_is_voted, (multi_rank, reserved), voted),
        call_ensures(min_word, (words,), r),
        0 <= i < words@.len(),
    ensures
        voted <==> multi_rank && !reserved,
        r <= words@[i],
        words@.contains(r),
{
    assert(r <= words@[i]);
}

/// A match enters the sequence as it is: its counts, the matched tokens of the prompt, its blocks
/// and disk ids behind those the sequence has, every layer's offload cursor at least past them,
/// and no tail checkpoint of an earlier turn.
pub proof fn matches_enter_the_sequence(
    seq: &mut SequenceState,
    tokens: &[u32],
    total: usize,
    m: &PrefixMatch,
    i: int,
)
    requires
        call_ensures(adopt_match, (seq, tokens, total, m), ()),
        m.matched_tokens <= tokens@.len(),
    ensures
        final(seq).cached_prefix_tokens == m.matched_tokens,
        final(seq).cached_prefix_blocks == m.matched_blocks@.len() as usize,
        final(seq).prompt_len == total,
        final(seq).tail_checkpoint_tokens is None,
        final(seq).prefix_ref_tokens@.len() == m.matched_tokens,
        0 <= i < m.matched_tokens ==> final(seq).prefix_ref_tokens@[i] == tokens@[i],
        final(seq).block_table@.len() == old(seq).block_table@.len() + m.matched_blocks@.len(),
        0 <= i < old(seq).block_table@.len() ==> final(seq).block_table@[i] == old(
            seq,
        ).block_table@[i],
        0 <= i < m.matched_blocks@.len() ==> final(seq).block_table@[old(seq).block_table@.len()
            + i] == m.matched_blocks@[i],
        final(seq).disk_block_ids@.len() == old(seq).disk_block_ids@.len()
            + m.matched_disk_block_ids@.len(),
        0 <= i < old(seq).disk_block_ids@.len() ==> final(seq).disk_block_ids@[i] == old(
            seq,
        ).disk_block_ids@[i],
        0 <= i < m.matched_disk_block_ids@.len() ==> final(seq).disk_block_ids@[old(
            seq,
        ).disk_block_ids@.len() + i] == m.matched_disk_block_ids@[i],
        final(seq).disk_last_offloaded_per_layer@.len() == old(
            seq,
        ).disk_last_offloaded_per_layer@.len(),
        0 <= i < old(seq).disk_last_offloaded_per_layer@.len() ==> {
            let was = old(seq).disk_last_offloaded_per_layer@[i];
            let now = final(seq).disk_last_offloaded_per_layer@[i];
            let ids = final(seq).disk_block_ids@.len() as u32;
            now >= was && now >= ids && (now == was || now == ids)
        },
        final(seq).tokens == old(seq).tokens,
        final(seq).seq_len == old(seq).seq_len,
        final(seq).layer_states == old(seq).layer_states,
        final(seq).marconi_skip_to == old(seq).marconi_skip_to,
        final(seq).kv_valid_tokens == old(seq).kv_valid_tokens,
{
}

/// A depth is agreed only if every rank that votes proposed it, and it is not zero; a common
/// nonzero proposal is always agreed. Outside a multi-rank world with recurrent layers only this
/// rank votes.
pub proof fn agreed_depths_are_unanimous(
    multi_rank: bool,
    has_ssm: bool,
    proposal: u32,
    votes: &[u32],
    r: Option<u32>,
)
    requires
        call_ensures(agreed_depth, (multi_rank, has_ssm, proposal, votes), r),
    ensures
        r matches Some(t) ==> t != 0,
        !(multi_rank && has_ssm) ==> (match r {
            Some(t) => t == proposal,
            None => proposal == 0,
        }),
        multi_rank && has_ssm ==> (match r {
            Some(t) => votes@.len() > 0 && forall|i: int|
                0 <= i < votes@.len() ==> #[trigger] votes@[i] == t,
            None => votes@.len() == 0 || exists|i: int|
                0 <= i < votes@.len() && (#[trigger] votes@[i] == 0 || votes@[i] != votes@[0]),
        }),
{
    if multi_rank && has_ssm && r is None && votes@.len() > 0 {
        if votes@[0] == 0 {
            assert(votes@[0] == 0);
        } else {
            let i = choose|i: int|
                0 <= i < votes@.len() && !(#[trigger] votes@[i] == votes@[0]);
            assert(votes@[i] != votes@[0]);
        }
    }
}

/// Only this rank's own candidate is restored, at its own depth, and only when the ranks agreed on
/// that depth; an agreed depth it does not hold is an error, and no agreement restores nothing.
pub proof fn only_the_agreed_candidate_is_restored(
    agreed: Option<u32>,
    eff_snapshot: Option<usize>,
    eff_tokens: usize,
    r: Result<Option<Restore>, AgreementBroken>,
)
    requires
        call_ensures(decide_restore, (agreed, eff_snapshot, eff_tokens), r),
    ensures
        match r {
            Ok(None) => agreed is None,
            Ok(Some(s)) => agreed matches Some(t) && s.depth == t && s.depth == eff_tokens
                && eff_snapshot == Some(s.snapshot),
            Err(e) => agreed == Some(e.agreed) && (eff_snapshot is None || eff_tokens != e.agreed),
        },
{
}

/// Words are appended in order behind what was there.
pub proof fn words_are_appended_in_order(out: &mut Vec<u32>, words: &Vec<u32>, i: int)
    requires
        call_ensures(push_words, (out, words), ()),
    ensures
        final(out)@.len() == old(out)@.len() + words@.len(),
        0 <= i < old(out)@.len() ==> final(out)@[i] == old(out)@[i],
        0 <= i < words@.len() ==> final(out)@[old(out)@.len() + i] == words@[i],
{
}

} // verus!
