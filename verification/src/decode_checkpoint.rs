//! Checkpoints taken while decoding: when the head takes one, and the words by which it tells the
//! workers to take the same one.
//!
//! A worker derives nothing itself: it saves at the head's token and session, so that either
//! every rank's pool holds the checkpoint or none does.

use vstd::prelude::*;

use crate::batch::prefill_recorded;
use crate::sequence_state::SequenceState;

verus! {

/// What decides whether a decode step takes a checkpoint.
#[derive(Clone, Copy, Debug)]
pub struct CkptInputs {
    /// Whether there is a snapshot pool and an active prefix cache.
    pub enabled: bool,
    pub num_ssm_layers: usize,
    pub hss_window_start: usize,
    /// The sequence's pool slot; `usize::MAX` means it has none.
    pub slot_idx: usize,
    pub tokens_len: usize,
    pub block_size: usize,
    pub block_table_len: usize,
    /// Block index of the latest checkpoint.
    pub last_ckpt_block: usize,
    /// Blocks between checkpoints.
    pub interval: usize,
}

/// A checkpoint to take: the tokens its state has seen and the complete blocks it covers.
#[derive(Clone, Copy, Debug, PartialEq, Eq, Structural)]
pub struct CkptPlan {
    pub snap_tokens: usize,
    pub end_block: usize,
}

/// The checkpoint of a decode step.
pub open spec fn ckpt_plan_spec(i: CkptInputs) -> Option<CkptPlan> {
    let end_block = i.tokens_len / i.block_size;
    if i.enabled && i.num_ssm_layers > 0 && i.hss_window_start == 0 && i.slot_idx != usize::MAX
        && end_block > 0 && i.interval > 0 && end_block % i.interval == 0 && end_block
        != i.last_ckpt_block && i.block_table_len >= end_block {
        Some(CkptPlan { snap_tokens: i.tokens_len, end_block })
    } else {
        None
    }
}

/// The checkpoint of a decode step, if it takes one: checkpoints are enabled, the model has
/// recurrent layers, the window has not slid, the sequence has a slot, the block it has completed
/// is a multiple of the interval and not yet checkpointed, and its table covers it.
pub fn decode_ckpt_plan(i: &CkptInputs) -> (r: Option<CkptPlan>)
    requires
        i.block_size > 0,
    ensures
        r == ckpt_plan_spec(*i),
{
    if !i.enabled || i.num_ssm_layers == 0 || i.hss_window_start > 0 || i.slot_idx == usize::MAX {
        return None;
    }
    let end_block: usize = i.tokens_len / i.block_size;
    if end_block == 0 || i.interval == 0 || end_block % i.interval != 0 {
        return None;
    }
    if end_block == i.last_ckpt_block || i.block_table_len < end_block {
        return None;
    }
    Some(CkptPlan { snap_tokens: i.tokens_len, end_block })
}

/// A boundary is not saved twice: after a checkpoint its block is the latest one, and the same
/// block plans no other.
pub proof fn boundary_is_not_saved_twice(i: CkptInputs)
    ensures
        ckpt_plan_spec(i) matches Some(p) ==> ckpt_plan_spec(
            (CkptInputs { last_ckpt_block: p.end_block, ..i }),
        ) is None,
{
}

/// The block a prompt ends in is not checkpointed while decoding: every prefill records it as the
/// latest checkpoint, so nothing is planned until another block is complete.
pub proof fn prompt_end_is_not_checkpointed_again(
    before: SequenceState,
    added: Seq<u32>,
    end: int,
    after: SequenceState,
    i: CkptInputs,
)
    requires
        i.block_size > 0,
        after.tokens@.len() <= usize::MAX,
        prefill_recorded(before, added, end, i.block_size as int, after),
        i.last_ckpt_block == after.last_decode_ckpt_block,
        i.tokens_len as int / i.block_size as int == after.tokens@.len() as int
            / i.block_size as int,
    ensures
        ckpt_plan_spec(i) is None,
{
    let n = after.tokens@.len() as int;
    let bs = i.block_size as int;
    assert(0 <= n / bs <= n) by (nonlinear_arith)
        requires
            0 <= n,
            0 < bs,
    ;
}

/// Two to the power of thirty-two.
pub const WORD_RANGE: u64 = 0x1_0000_0000;

/// The number of two words, the low one first.
pub open spec fn from_words(lo: u32, hi: u32) -> int {
    hi * 0x1_0000_0000 + lo
}

/// The words of a checkpoint: its tokens and blocks, then session and adapter, low word first.
pub open spec fn ckpt_words(plan: CkptPlan, session: u64, adapter: u64) -> Seq<u32> {
    seq![
        plan.snap_tokens as u32,
        plan.end_block as u32,
        (session % WORD_RANGE) as u32,
        (session / WORD_RANGE) as u32,
        (adapter % WORD_RANGE) as u32,
        (adapter / WORD_RANGE) as u32,
    ]
}

/// What six words stand for.
pub open spec fn ckpt_of(words: Seq<u32>) -> (CkptPlan, u64, u64) {
    (
        CkptPlan { snap_tokens: words[0] as usize, end_block: words[1] as usize },
        from_words(words[2], words[3]) as u64,
        from_words(words[4], words[5]) as u64,
    )
}

/// The words of a checkpoint: its tokens and blocks, then session and adapter, low word first.
pub fn encode_ckpt_payload(plan: CkptPlan, session: u64, adapter: u64) -> (r: [u32; 6])
    ensures
        r@ == ckpt_words(plan, session, adapter),
{
    let words: [u32; 6] = [
        plan.snap_tokens as u32,
        plan.end_block as u32,
        (session % WORD_RANGE) as u32,
        (session / WORD_RANGE) as u32,
        (adapter % WORD_RANGE) as u32,
        (adapter / WORD_RANGE) as u32,
    ];
    assert(words@ =~= ckpt_words(plan, session, adapter));
    words
}

/// A payload of another length than a checkpoint's.
#[derive(Clone, Copy, Debug, PartialEq, Eq, Structural)]
pub struct BadPayload {
    pub words: usize,
}

/// The checkpoint, session and adapter of a payload; one of another length is refused.
pub fn decode_ckpt_payload(words: &[u32]) -> (r: Result<(CkptPlan, u64, u64), BadPayload>)
    ensures
        r == if words@.len() == 6 {
            Ok::<(CkptPlan, u64, u64), BadPayload>(ckpt_of(words@))
        } else {
            Err::<(CkptPlan, u64, u64), BadPayload>(BadPayload { words: words@.len() as usize })
        },
{
    if words.len() != 6 {
        return Err(BadPayload { words: words.len() });
    }
    let plan = CkptPlan { snap_tokens: words[0] as usize, end_block: words[1] as usize };
    let session: u64 = (words[3] as u64) * WORD_RANGE + (words[2] as u64);
    let adapter: u64 = (words[5] as u64) * WORD_RANGE + (words[4] as u64);
    Ok((plan, session, adapter))
}

/// A worker saves what the head saved: the words of a checkpoint stand for its plan, its session
/// and its adapter, for every plan whose counts fit a word.
pub proof fn ckpt_payload_round_trips(plan: CkptPlan, session: u64, adapter: u64)
    requires
        plan.snap_tokens <= u32::MAX,
        plan.end_block <= u32::MAX,
    ensures
        ckpt_words(plan, session, adapter).len() == 6,
        ckpt_of(ckpt_words(plan, session, adapter)) == (plan, session, adapter),
{
}

/// A decode is checkpointed exactly at a multiple of the interval's blocks that was not the latest
/// checkpoint: with recurrent layers, a pool slot, an unslid window and a block for every complete
/// one. The plan is the sequence's length and its complete blocks.
pub proof fn decodes_are_checkpointed_at_intervals(i: &CkptInputs, r: Option<CkptPlan>, blocks: int)
    requires
        call_ensures(decode_ckpt_plan, (i,), r),
        i.block_size > 0,
        blocks * i.block_size <= i.tokens_len < (blocks + 1) * i.block_size,
    ensures
        r is Some <==> {
            &&& i.enabled
            &&& i.num_ssm_layers > 0
            &&& i.slot_idx != usize::MAX
            &&& i.hss_window_start == 0
            &&& blocks > 0
            &&& i.interval > 0
            &&& blocks % i.interval as int == 0
            &&& blocks != i.last_ckpt_block
            &&& blocks <= i.block_table_len
        },
        r matches Some(p) ==> p.snap_tokens == i.tokens_len && p.end_block == blocks,
{
    let b = i.block_size as int;
    let n = i.tokens_len as int;
    let q = n / b;
    assert(q * b <= n < (q + 1) * b) by (nonlinear_arith)
        requires
            q == n / b,
            0 < b,
            0 <= n,
    ;
    assert(q == blocks) by (nonlinear_arith)
        requires
            q * b <= n < (q + 1) * b,
            blocks * b <= n < (blocks + 1) * b,
            0 < b,
    ;
}

/// What a rank is sent is what it reads: a payload of a plan, a session and an adapter decodes to
/// them, and a payload of another length is refused by its length.
pub proof fn payloads_are_read_as_sent(
    plan: CkptPlan,
    session: u64,
    adapter: u64,
    sent: [u32; 6],
    words: &[u32],
    r: Result<(CkptPlan, u64, u64), BadPayload>,
)
    requires
        call_ensures(encode_ckpt_payload, (plan, session, adapter), sent),
        call_ensures(decode_ckpt_payload, (words,), r),
    ensures
        words@ == sent@ && plan.snap_tokens <= u32::MAX && plan.end_block <= u32::MAX ==> r == Ok::<
            (CkptPlan, u64, u64),
            BadPayload,
        >((plan, session, adapter)),
        r is Err <==> words@.len() != 6,
        r matches Err(e) ==> e.words == words@.len() as usize,
        sent@.len() == 6,
        sent@[0] == plan.snap_tokens as u32,
        sent@[1] == plan.end_block as u32,
{
    assert(session == session / 0x1_0000_0000 * 0x1_0000_0000 + session % 0x1_0000_0000);
    assert(adapter == adapter / 0x1_0000_0000 * 0x1_0000_0000 + adapter % 0x1_0000_0000);
}

} // verus!
