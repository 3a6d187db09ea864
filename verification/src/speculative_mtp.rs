//! Proposing drafts: the words that bring a worker rank into a propose, when a batch can propose
//! at once, and where the hidden rows of accepted drafts are kept.

use vstd::prelude::*;

use crate::sequence_state::SequenceState;
use crate::speculative::{row_copy, RowCopy};
use crate::verify_single::{lemma_row_fits, ROW_ELEM_BYTES};

verus! {

/// What a worker rank is told before a propose that it joins.
#[derive(Clone, Copy, Debug, PartialEq, Eq, Structural)]
pub struct ProposeWords {
    /// The sequence's slot, sent with the command.
    pub slot: u32,
    pub token: u32,
    pub position: u32,
    pub num_drafts: u32,
    /// The hidden row the head last saved as the drafter's input.
    pub hidden_row: u32,
}

/// The words sent before a propose, or `None` when it runs on one rank alone: in a multi-rank
/// world the workers join only if the proposer communicates.
pub fn propose_words(
    multi_rank: bool,
    needs_comm: bool,
    seq: &SequenceState,
    token: u32,
    position: usize,
    num_drafts: usize,
    hidden_row: usize,
) -> (r: Option<ProposeWords>)
    ensures
        r == if multi_rank && needs_comm {
            Some(
                ProposeWords {
                    slot: seq.slot_idx as u32,
                    token,
                    position: position as u32,
                    num_drafts: num_drafts as u32,
                    hidden_row: hidden_row as u32,
                },
            )
        } else {
            None
        },
{
    if multi_rank && needs_comm {
        Some(
            ProposeWords {
                slot: seq.slot_idx as u32,
                token,
                position: position as u32,
                num_drafts: num_drafts as u32,
                hidden_row: hidden_row as u32,
            },
        )
    } else {
        None
    }
}

/// The draft of a single-draft propose.
pub fn first_draft(drafts: &Vec<u32>) -> (r: Option<u32>)
    ensures
        r == if drafts@.len() > 0 {
            Some(drafts@[0])
        } else {
            None
        },
{
    if drafts.len() > 0 {
        Some(drafts[0])
    } else {
        None
    }
}

/// Whether a batched propose is tried at all; otherwise each sequence proposes on its own.
pub fn batched_propose_wanted(has_proposer: bool, confidence_clamp: bool, stash_null: bool) -> (r: bool)
    ensures
        r == (has_proposer && !confidence_clamp && !stash_null),
{
    has_proposer && !confidence_clamp && !stash_null
}

/// Whether every sequence of a batch has proposer state.
pub fn all_have_state(seqs: &Vec<&SequenceState>) -> (r: bool)
    ensures
        r == forall|i: int| 0 <= i < seqs@.len() ==> (#[trigger] seqs@[i]).proposer_state is Some,
{
    let mut i: usize = 0;
    while i < seqs.len()
        invariant
            i <= seqs@.len(),
            forall|j: int| 0 <= j < i ==> (#[trigger] seqs@[j]).proposer_state is Some,
        decreases seqs@.len() - i,
    {
        if seqs[i].proposer_state.is_none() {
            assert(seqs@[i as int].proposer_state is None);
            return false;
        }
        i = i + 1;
    }
    true
}

/// Byte offsets of stash rows.
pub fn stash_offsets(stash_idx: &[usize], h: usize) -> (r: Vec<usize>)
    requires
        forall|i: int| 0 <= i < stash_idx@.len() ==> #[trigger] stash_idx@[i] * h * 2 <= usize::MAX,
    ensures
        r@ == Seq::new(stash_idx@.len(), |i: int| (stash_idx@[i] * h * 2) as usize),
{
    let mut out: Vec<usize> = Vec::new();
    let mut i: usize = 0;
    while i < stash_idx.len()
        invariant
            forall|i: int|
                0 <= i < stash_idx@.len() ==> #[trigger] stash_idx@[i] * h * 2 <= usize::MAX,
            i <= stash_idx@.len(),
            out@ == Seq::new(i as nat, |i: int| (stash_idx@[i] * h * 2) as usize),
        decreases stash_idx@.len() - i,
    {
        let row: usize = stash_idx[i];
        proof {
            lemma_row_fits(row as int, row as int, h as int);
            assert(stash_idx@[i as int] * h * 2 <= usize::MAX);
        }
        out.push(row * h * ROW_ELEM_BYTES);
        i = i + 1;
    }
    out
}

/// Copies into the catch-up stash, and the slot that ended them early.
pub struct CatchupCopies {
    pub copies: Vec<RowCopy>,
    /// The first slot past the stash; the copies before it are made.
    pub bad_slot: Option<usize>,
}

/// How many of the pairs come before the first slot at or past `cap`.
pub open spec fn good_slots(slot_rows: Seq<(usize, usize)>, cap: int, n: int) -> bool {
    &&& 0 <= n <= slot_rows.len()
    &&& forall|i: int| 0 <= i < n ==> (#[trigger] slot_rows[i]).0 < cap
    &&& n < slot_rows.len() ==> slot_rows[n].0 >= cap
}

/// Copy hidden row `row` into catch-up slot `slot` for each `(slot, row)`, before anything
/// overwrites the rows. Nothing is copied with exact drafter rows off or no stash.
pub fn stash_verify_catchup_rows(
    enabled: bool,
    stash_null: bool,
    slot_rows: &[(usize, usize)],
    cap: usize,
    h: usize,
) -> (r: CatchupCopies)
    requires
        forall|i: int| 0 <= i < slot_rows@.len() ==> (#[trigger] slot_rows@[i]).1 * h * 2 <= usize::MAX,
        cap * h * 2 <= usize::MAX,
        h * 2 <= usize::MAX,
    ensures
        (!enabled || stash_null) ==> r.copies@.len() == 0 && r.bad_slot is None,
        (enabled && !stash_null) ==> exists|n: int|
            {
                &&& #[trigger] good_slots(slot_rows@, cap as int, n)
                &&& r.copies@ == Seq::new(
                    n as nat,
                    |i: int| row_copy(slot_rows@[i].1 as int, slot_rows@[i].0 as int, h as int),
                )
                &&& r.bad_slot == if n < slot_rows@.len() {
                    Some(slot_rows@[n].0)
                } else {
                    None
                }
            },
{
    let mut copies: Vec<RowCopy> = Vec::new();
    if !enabled || stash_null {
        return CatchupCopies { copies, bad_slot: None };
    }
    let mut i: usize = 0;
    while i < slot_rows.len()
        invariant
            forall|i: int|
                0 <= i < slot_rows@.len() ==> (#[trigger] slot_rows@[i]).1 * h * 2 <= usize::MAX,
            cap * h * 2 <= usize::MAX,
            h * 2 <= usize::MAX,
            enabled && !stash_null,
            i <= slot_rows@.len(),
            forall|j: int| 0 <= j < i ==> (#[trigger] slot_rows@[j]).0 < cap,
            copies@ == Seq::new(
                i as nat,
                |i: int| row_copy(slot_rows@[i].1 as int, slot_rows@[i].0 as int, h as int),
            ),
        decreases slot_rows@.len() - i,
    {
        let (slot, row) = slot_rows[i];
        if slot >= cap {
            assert(good_slots(slot_rows@, cap as int, i as int));
            return CatchupCopies { copies, bad_slot: Some(slot) };
        }
        proof {
            lemma_row_fits(slot as int, cap as int, h as int);
            lemma_row_fits(row as int, row as int, h as int);
            assert(slot_rows@[i as int].1 * h * 2 <= usize::MAX);
        }
        copies.push(
            RowCopy {
                src_offset: row * h * ROW_ELEM_BYTES,
                dst_offset: slot * h * ROW_ELEM_BYTES,
                bytes: h * ROW_ELEM_BYTES,
            },
        );
        i = i + 1;
    }
    assert(good_slots(slot_rows@, cap as int, i as int));
    CatchupCopies { copies, bad_slot: None }
}

/// Catch-up stash offsets of a sequence's accepted drafts: consecutive slots from `first_slot`.
pub fn catchup_offsets(num_tokens: usize, first_slot: usize, h: usize) -> (r: Vec<usize>)
    requires
        first_slot + num_tokens <= usize::MAX,
        (first_slot + num_tokens) * h * 2 <= usize::MAX,
    ensures
        r@ == Seq::new(num_tokens as nat, |k: int| ((first_slot + k) * h * 2) as usize),
{
    let mut out: Vec<usize> = Vec::new();
    let mut k: usize = 0;
    while k < num_tokens
        invariant
            first_slot + num_tokens <= usize::MAX,
            (first_slot + num_tokens) * h * 2 <= usize::MAX,
            k <= num_tokens,
            out@ == Seq::new(k as nat, |k: int| ((first_slot + k) * h * 2) as usize),
        decreases num_tokens - k,
    {
        proof {
            lemma_row_fits(first_slot + k, first_slot + num_tokens, h as int);
        }
        out.push((first_slot + k) * h * ROW_ELEM_BYTES);
        k = k + 1;
    }
    out
}

/// A propose is sent to the other ranks exactly where they take part, with the sequence's own slot
/// and the propose's own numbers.
pub proof fn proposes_are_sent_as_they_are(
    multi_rank: bool,
    needs_comm: bool,
    seq: &SequenceState,
    token: u32,
    position: usize,
    num_drafts: usize,
    hidden_row: usize,
    r: Option<ProposeWords>,
)
    requires
        call_ensures(
            propose_words,
            (multi_rank, needs_comm, seq, token, position, num_drafts, hidden_row),
            r,
        ),
    ensures
        r is Some <==> multi_rank && needs_comm,
        r matches Some(w) ==> w.slot == seq.slot_idx as u32 && w.token == token && w.position
            == position as u32 && w.num_drafts == num_drafts as u32 && w.hidden_row
            == hidden_row as u32,
{
}

/// The draft of a single propose is its first one; several sequences propose together exactly with
/// a proposer, a stash and no confidence clamp, and when all of them have state.
pub proof fn batched_proposes_need_state(
    drafts: &Vec<u32>,
    first: Option<u32>,
    has_proposer: bool,
    confidence_clamp: bool,
    stash_null: bool,
    wanted: bool,
    seqs: &Vec<&SequenceState>,
    all: bool,
    i: int,
)
    requires
        call_ensures(first_draft, (drafts,), first),
        call_ensures(batched_propose_wanted, (has_proposer, confidence_clamp, stash_null), wanted),
        call_ensures(all_have_state, (seqs,), all),
        0 <= i < seqs@.len(),
    ensures
        first is None <==> drafts@.len() == 0,
        first matches Some(d) ==> d == drafts@[0],
        wanted <==> has_proposer && !confidence_clamp && !stash_null,
        all ==> seqs@[i].proposer_state is Some,
{
    if all {
        assert(seqs@[i].proposer_state is Some);
    }
}

/// Every offset is its own row's place in the stash, two bytes per element.
pub proof fn stash_offsets_are_their_rows(stash_idx: &[usize], h: usize, r: Vec<usize>, i: int)
    requires
        call_ensures(stash_offsets, (stash_idx, h), r),
        0 <= i < stash_idx@.len(),
        stash_idx@[i] * h * 2 <= usize::MAX,
    ensures
        r@.len() == stash_idx@.len(),
        r@[i] == stash_idx@[i] * (2 * h),
{
    let row = stash_idx@[i] as int;
    assert(row * h * 2 == row * (2 * h)) by (nonlinear_arith);
    assert(0 <= row * h) by (nonlinear_arith)
        requires
            0 <= row,
            0 <= h,
    ;
}

/// Catch-up rows go each to its own slot, in order, up to the first slot past the stash, which is
/// reported; nothing is copied where the rows are not kept.
pub proof fn catchup_rows_go_to_their_slots(
    enabled: bool,
    stash_null: bool,
    slot_rows: &[(usize, usize)],
    cap: usize,
    h: usize,
    r: CatchupCopies,
    i: int,
)
    requires
        call_ensures(stash_verify_catchup_rows, (enabled, stash_null, slot_rows, cap, h), r),
        cap * h * 2 <= usize::MAX,
        h * 2 <= usize::MAX,
        0 <= i < slot_rows@.len(),
        slot_rows@[i].1 * h * 2 <= usize::MAX,
    ensures
        ({
            let n = r.copies@.len();
            &&& !(enabled && !stash_null) ==> n == 0 && r.bad_slot is None
            &&& n <= slot_rows@.len()
            &&& i < n ==> {
                &&& slot_rows@[i].0 < cap
                &&& r.copies@[i].src_offset == slot_rows@[i].1 * (2 * h)
                &&& r.copies@[i].dst_offset == slot_rows@[i].0 * (2 * h)
                &&& r.copies@[i].bytes == 2 * h
            }
            &&& enabled && !stash_null && i == n ==> slot_rows@[i].0 >= cap && r.bad_slot == Some(
                slot_rows@[i].0,
            )
            &&& enabled && !stash_null && n == slot_rows@.len() ==> r.bad_slot is None
        }),
{
    if enabled && !stash_null {
        let n = choose|n: int|
            {
                &&& #[trigger] good_slots(slot_rows@, cap as int, n)
                &&& r.copies@ == Seq::new(
                    n as nat,
                    |i: int| row_copy(slot_rows@[i].1 as int, slot_rows@[i].0 as int, h as int),
                )
                &&& r.bad_slot == if n < slot_rows@.len() {
                    Some(slot_rows@[n].0)
                } else {
                    None
                }
            };
        assert(good_slots(slot_rows@, cap as int, n));
        if i < n {
            let row = slot_rows@[i].1 as int;
            let slot = slot_rows@[i].0 as int;
            assert(slot < cap);
            assert(row * h * 2 == row * (2 * h) && slot * h * 2 == slot * (2 * h))
                by (nonlinear_arith);
            assert(0 <= row * h) by (nonlinear_arith)
                requires
                    0 <= row,
                    0 <= h,
            ;
            assert(0 <= slot * h * 2 <= cap * h * 2) by (nonlinear_arith)
                requires
                    0 <= slot <= cap,
                    0 <= h,
            ;
        }
    }
}

/// The rows of accepted drafts lie one after another from the first slot on.
pub proof fn catchup_offsets_are_consecutive(
    num_tokens: usize,
    first_slot: usize,
    h: usize,
    r: Vec<usize>,
    k: int,
)
    requires
        call_ensures(catchup_offsets, (num_tokens, first_slot, h), r),
        (first_slot + num_tokens) * h * 2 <= usize::MAX,
        0 <= k < num_tokens,
    ensures
        r@.len() == num_tokens,
        r@[k] == (first_slot + k) * (2 * h),
{
    let slot = first_slot + k;
    assert(slot * h * 2 == slot * (2 * h)) by (nonlinear_arith);
    assert(0 <= slot * h * 2 <= (first_slot + num_tokens) * h * 2) by (nonlinear_arith)
        requires
            0 <= slot <= first_slot + num_tokens,
            0 <= h,
    ;
}

/// There is one offset per row, whatever the number of rows.
pub proof fn offsets_are_one_per_row(
    stash_idx: &[usize],
    h: usize,
    r: Vec<usize>,
    num_tokens: usize,
    first_slot: usize,
    r2: Vec<usize>,
)
    requires
        call_ensures(stash_offsets, (stash_idx, h), r),
        call_ensures(catchup_offsets, (num_tokens, first_slot, h), r2),
    ensures
        r@.len() == stash_idx@.len(),
        r2@.len() == num_tokens,
{
}

/// A batch in which no sequence lacks proposer state has it throughout.
pub proof fn complete_batches_have_state(seqs: &Vec<&SequenceState>, all: bool)
    requires
        call_ensures(all_have_state, (seqs,), all),
    ensures
        all || exists|i: int| 0 <= i < seqs@.len() && (#[trigger] seqs@[i]).proposer_state is None,
{
}

} // verus!
