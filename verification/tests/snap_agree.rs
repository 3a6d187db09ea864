//! The restore agreement of several ranks, and the decode checkpoints they share.

use metrale_model_engine::decode_checkpoint::{
    decode_ckpt_payload, decode_ckpt_plan, encode_ckpt_payload, CkptInputs, CkptPlan,
};
use metrale_model_engine::snap_agree::{
    agree, local_proposal, skip_point, Gather, GatherAction, LocalGates,
};

const MATCHED: usize = 16352;
const TOTAL: usize = 16356;
const T: usize = 16336;

/// A rank that holds a restorable intermediate checkpoint at `snap_tok`.
fn holder(snap_tok: usize) -> LocalGates {
    LocalGates {
        snap_tok,
        matched: MATCHED,
        total: TOTAL,
        min_tokens: 256,
        has_hidden: false,
        exact_enabled: false,
        is_tail: false,
        session_ok: true,
        needs_aux: true,
        has_aux: true,
    }
}

/// A rank that holds no checkpoint.
fn none() -> LocalGates {
    holder(0)
}

/// Run the whole decision for two ranks: proposals, agreement, skip point.
/// Returns `(agreed, [skip_point_r0, skip_point_r1])`.
fn decide(r0: &LocalGates, r1: &LocalGates) -> (Option<u32>, [usize; 2]) {
    let votes = [local_proposal(r0), local_proposal(r1)];
    let agreed = agree(&votes);
    let point = |g: &LocalGates| {
        let skip = agreed.is_some();
        skip_point(
            skip,
            agreed.map_or(0, |t| t as usize),
            g.matched,
            g.total,
            true,
        )
    };
    (agreed, [point(r0), point(r1)])
}

// Both ranks hold the same snapshot T: both restore T.
#[test]
fn both_ranks_same_snapshot_restore_it() {
    let (agreed, pts) = decide(&holder(T), &holder(T));
    assert_eq!(agreed, Some(T as u32));
    assert_eq!(pts, [T, T]);
}

// Rank 0 has T, rank 1 has none: both recompute.
#[test]
fn one_rank_without_snapshot_forces_recompute_everywhere() {
    let (agreed, pts) = decide(&holder(T), &none());
    assert_eq!(agreed, None);
    assert_eq!(pts, [0, 0]);
    let (agreed, pts) = decide(&none(), &holder(T));
    assert_eq!(agreed, None);
    assert_eq!(pts, [0, 0]);
}

// Different depths: both recompute, never a depth only one rank holds.
#[test]
fn different_tokens_never_pick_a_token_one_rank_lacks() {
    let (agreed, pts) = decide(&holder(T), &holder(T - 256));
    assert_eq!(agreed, None, "a naive min would have chosen {}", T - 256);
    assert_eq!(pts, [0, 0]);
}

// Same candidate, but rank 1 fails the aux gate: both recompute.
#[test]
fn aux_gate_failure_on_one_rank_declines_everywhere() {
    let mut r1 = holder(T);
    r1.has_aux = false;
    let (agreed, pts) = decide(&holder(T), &r1);
    assert_eq!(agreed, None);
    assert_eq!(pts, [0, 0]);
}

// A local decline on one rank (session, min tokens, hidden, exact
// restore) leaves neither rank restoring.
#[test]
fn any_local_decline_on_one_rank_declines_everywhere() {
    let declines: Vec<(&str, LocalGates)> = vec![
        ("tail snapshot from another session", {
            let mut g = holder(T);
            g.is_tail = true;
            g.session_ok = false;
            g
        }),
        ("below marconi_min_tokens", {
            let mut g = holder(T);
            g.min_tokens = T + 1;
            g
        }),
        ("exact full-prompt hit without hidden", {
            let mut g = holder(TOTAL);
            g.matched = TOTAL;
            g.exact_enabled = true;
            g.has_hidden = false;
            g
        }),
        ("exact full-prompt shortcut bypassed by default", {
            let mut g = holder(TOTAL);
            g.matched = TOTAL;
            g.has_hidden = true;
            g
        }),
    ];
    for (why, r1) in declines {
        assert_eq!(
            local_proposal(&r1),
            0,
            "{why}: rank 1 must propose RECOMPUTE"
        );
        let (agreed, pts) = decide(&holder(r1.snap_tok), &r1);
        assert_eq!(agreed, None, "{why}");
        assert_eq!(pts, [0, 0], "{why}");
    }
}

// No snapshot anywhere: recompute.
#[test]
fn no_snapshot_anywhere_recomputes() {
    let (agreed, pts) = decide(&none(), &none());
    assert_eq!(agreed, None);
    assert_eq!(pts, [0, 0]);
    assert_eq!(agree(&[]), None);
}

// The replay length is the same on both ranks for every agreement outcome
// and skip shape.
#[test]
fn replay_length_identical_across_ranks() {
    for (r0, r1) in [
        (holder(T), holder(T)),
        (holder(T), none()),
        (holder(T), holder(T - 256)),
        (none(), none()),
    ] {
        let (_, [p0, p1]) = decide(&r0, &r1);
        assert_eq!(TOTAL - p0, TOTAL - p1, "replay differs: {r0:?} vs {r1:?}");
    }
    // The non-SSM skip and the exact-leaf shape are pure functions of the
    // agreed inputs too.
    assert_eq!(skip_point(true, 0, MATCHED, TOTAL, false), MATCHED);
    assert_eq!(skip_point(true, TOTAL, TOTAL, TOTAL, true), TOTAL);
    assert_eq!(skip_point(true, T, MATCHED, TOTAL, true), T);
    assert_eq!(skip_point(false, T, MATCHED, TOTAL, true), 0);
}

/// Run the gather on two ranks in step: in each round the root sends its word and the other rank
/// receives it. Returns what each rank observed.
fn gather_two(vals: [u32; 2]) -> [Vec<u32>; 2] {
    let mut ranks = [Gather::start(0, 2, vals[0]), Gather::start(1, 2, vals[1])];
    for round in 0..2 {
        let mut sent = None;
        for g in &ranks {
            match g.action() {
                GatherAction::Send { root, word } => {
                    assert_eq!(root, round);
                    sent = Some(word);
                }
                GatherAction::Receive { root } => assert_eq!(root, round),
                GatherAction::Done => panic!("a rank stopped early"),
            }
        }
        let word = sent.expect("one rank is the root");
        for g in &mut ranks {
            g.finish(word);
        }
    }
    for g in &ranks {
        assert_eq!(g.action(), GatherAction::Done);
    }
    let [a, b] = ranks;
    [a.out, b.out]
}

// Every rank sees the same vector, in rank order, so `agree` and the
// minimum that `ep_min_u32` takes give the same result on every rank, in agreement and
// in disagreement.
#[test]
fn gather_gives_every_rank_the_same_votes() {
    let t = T as u32;
    for (vals, want) in [
        ([t, t], Some(t)),
        ([t, 0], None),
        ([0, t], None),
        ([t, t - 256], None),
        ([0, 0], None),
    ] {
        let [r0, r1] = gather_two(vals);
        assert_eq!(r0, vals.to_vec(), "rank 0 view of {vals:?}");
        assert_eq!(r1, vals.to_vec(), "rank 1 view of {vals:?}");
        assert_eq!(agree(&r0), want);
        assert_eq!(agree(&r1), want);
        // `ep_min_u32` takes the minimum over this same gather.
        assert_eq!(r0.iter().min(), r1.iter().min());
    }
}

// Decode-time checkpoints on a multi-rank world. Rank 0 decides
// (`decode_ckpt_plan`) and sends `EP_CMD_DECODE_CKPT`; a worker saves the checkpoint
// at rank 0's slot, token and session (`decode_marconi_checkpoint_worker`). These tests
// check that both pools then hold the same checkpoint or neither does, with the real wire
// codec.

/// One rank's snapshot pool as `(slot, token, session)` entries.
type Pool = Vec<(usize, usize, u64)>;

const SLOT: usize = 1;
const SESSION: u64 = 0xdead_beef_0bad_f00d;
const ADAPTER_HEAD: u64 = 0x0000_0001_0000_0002;
const BS: usize = 16;
// The `METRALE_DECODE_CKPT_BLOCKS` default (4 blocks, 64 tokens at BS 16).
const INTERVAL: usize = 4;
// 1024 complete blocks, a multiple of `INTERVAL`.
const CKPT_TOKENS: usize = 16_384;

fn inputs(enabled: bool, tokens_len: usize, last_ckpt_block: usize) -> CkptInputs {
    CkptInputs {
        enabled,
        num_ssm_layers: 12,
        hss_window_start: 0,
        slot_idx: SLOT,
        tokens_len,
        block_size: BS,
        block_table_len: tokens_len / BS,
        last_ckpt_block,
        interval: INTERVAL,
    }
}

/// Rank 0: decide, save locally, and return the words it puts on the wire.
/// `None`: nothing saved and no EP command sent.
fn head_checkpoint(inputs: &CkptInputs, pool: &mut Pool) -> Option<[u32; 6]> {
    let plan = decode_ckpt_plan(inputs)?;
    pool.push((inputs.slot_idx, plan.snap_tokens, SESSION));
    Some(encode_ckpt_payload(plan, SESSION, ADAPTER_HEAD))
}

/// A worker handling `EP_CMD_DECODE_CKPT`: it derives nothing itself and
/// saves at rank 0's `(slot, token, session)`.
fn worker_checkpoint(slot: usize, words: &[u32], pool: &mut Pool) {
    let (plan, session, _adapter) = decode_ckpt_payload(words).expect("payload decodes");
    pool.push((slot, plan.snap_tokens, session));
}

/// What this rank proposes on a later warm turn that matches `matched`
/// tokens of a `total`-token prompt: its deepest checkpoint at or below `matched`,
/// through the real `local_proposal`.
fn proposal_from(pool: &Pool, matched: usize, total: usize) -> u32 {
    let snap_tok = pool
        .iter()
        .filter(|&&(_, tok, _)| tok <= matched)
        .map(|&(_, tok, _)| tok)
        .max()
        .unwrap_or(0);
    local_proposal(&LocalGates {
        snap_tok,
        matched,
        total,
        min_tokens: 256,
        has_hidden: false,
        exact_enabled: false,
        is_tail: false,
        session_ok: true,
        needs_aux: true,
        has_aux: snap_tok != 0,
    })
}

// After a checkpoint on rank 0, both pools hold the same
// (slot, token, session).
#[test]
fn worker_saves_the_same_slot_token_session_as_rank0() {
    let (mut r0, mut r1): (Pool, Pool) = (vec![], vec![]);
    let words = head_checkpoint(&inputs(true, CKPT_TOKENS, 0), &mut r0).expect("rank 0 fires");
    worker_checkpoint(SLOT, &words, &mut r1);
    assert_eq!(r0, vec![(SLOT, CKPT_TOKENS, SESSION)]);
    assert_eq!(r1, r0, "worker pool must hold exactly rank 0's checkpoint");
}

// A later lookup then agrees on both ranks, through the real
// rooted-broadcast gather.
#[test]
fn symmetric_checkpoint_makes_the_later_lookup_agree() {
    let (mut r0, mut r1): (Pool, Pool) = (vec![], vec![]);
    let words = head_checkpoint(&inputs(true, CKPT_TOKENS, 0), &mut r0).expect("rank 0 fires");
    worker_checkpoint(SLOT, &words, &mut r1);

    let (matched, total) = (CKPT_TOKENS + 16, CKPT_TOKENS + 20);
    let votes = [
        proposal_from(&r0, matched, total),
        proposal_from(&r1, matched, total),
    ];
    let [seen0, seen1] = gather_two(votes);
    assert_eq!(agree(&seen0), Some(CKPT_TOKENS as u32));
    assert_eq!(agree(&seen1), Some(CKPT_TOKENS as u32));
    assert_eq!(
        skip_point(true, CKPT_TOKENS, matched, total, true),
        CKPT_TOKENS,
    );
}

// A checkpoint saved on rank 0 only gives votes [T, 0], which the
// agreement refuses.
#[test]
fn head_only_checkpoint_is_refused_by_the_vote() {
    let (mut r0, r1): (Pool, Pool) = (vec![], vec![]);
    head_checkpoint(&inputs(true, CKPT_TOKENS, 0), &mut r0).expect("rank 0 fires");
    let (matched, total) = (CKPT_TOKENS + 16, CKPT_TOKENS + 20);
    let votes = [
        proposal_from(&r0, matched, total),
        proposal_from(&r1, matched, total),
    ];
    assert_eq!(votes, [CKPT_TOKENS as u32, 0]);
    let [seen0, seen1] = gather_two(votes);
    assert_eq!(agree(&seen0), None);
    assert_eq!(agree(&seen1), None);
}

// Disabled (`enabled == false`: no snapshot pool or no active prefix
// cache): no save, and nothing goes on the wire.
#[test]
fn disabled_prefix_cache_emits_no_ep_command() {
    let (mut r0, r1): (Pool, Pool) = (vec![], vec![]);
    assert_eq!(decode_ckpt_plan(&inputs(false, CKPT_TOKENS, 0)), None);
    assert!(
        head_checkpoint(&inputs(false, CKPT_TOKENS, 0), &mut r0).is_none(),
        "no payload ⇒ no EP_CMD_DECODE_CKPT broadcast",
    );
    assert!(r0.is_empty() && r1.is_empty());
}

// Every other skip reason also sends nothing: the command goes out only
// when rank 0 saves.
#[test]
fn every_skip_reason_emits_no_ep_command() {
    let cases: Vec<(&str, CkptInputs)> = vec![
        ("no SSM layers", {
            let mut i = inputs(true, CKPT_TOKENS, 0);
            i.num_ssm_layers = 0;
            i
        }),
        ("sliding SSM window", {
            let mut i = inputs(true, CKPT_TOKENS, 0);
            i.hss_window_start = 64;
            i
        }),
        ("no pool slot", {
            let mut i = inputs(true, CKPT_TOKENS, 0);
            i.slot_idx = usize::MAX;
            i
        }),
        (
            "not on an interval boundary",
            inputs(true, CKPT_TOKENS + BS, 0),
        ),
        ("already checkpointed this block", {
            inputs(true, CKPT_TOKENS, CKPT_TOKENS / BS)
        }),
        ("no complete block yet", inputs(true, BS - 1, 0)),
        ("block table shorter than the coverage", {
            let mut i = inputs(true, CKPT_TOKENS, 0);
            i.block_table_len = CKPT_TOKENS / BS - 1;
            i
        }),
    ];
    for (why, i) in cases {
        let mut pool: Pool = vec![];
        assert!(head_checkpoint(&i, &mut pool).is_none(), "{why}");
        assert!(pool.is_empty(), "{why}");
    }
}

// The wire codec round-trips; a swapped lo/hi word would tag every worker
// checkpoint with a different session.
#[test]
fn ckpt_payload_round_trips() {
    let plan = CkptPlan {
        snap_tokens: 16_356,
        end_block: 1_022,
    };
    let words = encode_ckpt_payload(plan, SESSION, ADAPTER_HEAD);
    assert_eq!(words.len(), 6);
    let (back, session, adapter) = decode_ckpt_payload(&words).unwrap();
    assert_eq!(back, plan);
    assert_eq!(session, SESSION);
    assert_eq!(adapter, ADAPTER_HEAD);
    // A short or long payload is an error.
    assert!(decode_ckpt_payload(&words[..5]).is_err());
    assert!(decode_ckpt_payload(&[0u32; 7]).is_err());
}
