//! The end of a prompt, checkpoints, scoring, drafting and teardown.

use metrale_model_engine::batch::commit_chunk;
use metrale_model_engine::decode_checkpoint::{
    decode_ckpt_payload, decode_ckpt_plan, BadPayload, CkptInputs,
};
use metrale_model_engine::exact_leaf::{exact_leaf, marconi_exact_enabled, ExactLeaf};
use metrale_model_engine::chunks::Chunk;
use metrale_model_engine::finalize_last::{
    cache_extent, exact_fixup, final_insert, last_row_offset, logits_dst, ExactFixup, FinalInsert,
    LogitsDst,
};
use metrale_model_engine::midchunk_capture::{
    capture_plan, capture_point, capture_registrations, early_capture, CaptureGate, EarlyCapture,
    Registration,
};
use metrale_model_engine::prompt_logprobs::{score_batches, score_targets, PartialChunk};
use metrale_model_engine::rank_agree::{
    agreement_needed, check_ranks_agree, decode_values, encode_items, mismatches,
};
use metrale_model_engine::save_checkpoint::{
    checkpoint_insert, checkpoint_inserted, checkpoint_wanted, Checkpoint, CheckpointInsert,
};
use metrale_model_engine::sequence_state::SequenceState;
use metrale_model_engine::speculative::{
    append_tokens, carry_admit, carry_adopted, carry_append, ensure_drafter_context,
    generate_route, stash_verify_hidden_rows, stashed_row_offset, store_carry, CarryAdmission,
    CarryAppend, CarryOutcome, CarryStep, CatchupRing, DrafterAction, DrafterInputs,
    GenerateRoute, RowCopy, StashError,
};
use metrale_model_engine::speculative_mtp::{
    all_have_state, batched_propose_wanted, catchup_offsets, first_draft, propose_words,
    stash_offsets, stash_verify_catchup_rows,
};
use metrale_model_engine::ssm_fault_in::parse_usize;
use metrale_model_engine::teardown::{
    first_failure, pool_still_held, release_pools, Released, Resource,
};
use metrale_model_engine::verify_switches::{
    k4_diag_enabled, value_switch_armed, verify_d2h_default_stream, verify_d2h_no_pinned,
};

fn prompt_state(valid: usize, blocks: usize) -> SequenceState {
    let mut s = SequenceState::host_only(0);
    s.kv_valid_tokens = valid;
    s.block_table = (0..blocks as u32).collect();
    s
}

#[test]
fn logits_come_from_the_last_row() {
    assert_eq!(last_row_offset(10, 5, 100), 14 * 200);
    assert_eq!(logits_dst(0, 100), LogitsDst::DecodeRow);
    assert_eq!(logits_dst(3, 100), LogitsDst::Offset(600));
    let mut s = prompt_state(0, 0);
    assert_eq!(exact_fixup(&s, true), None);
    s.marconi_exact_snap = Some(4);
    assert_eq!(exact_fixup(&s, true), Some(ExactFixup { snapshot: 4, restore_hidden: true }));
    assert_eq!(exact_fixup(&s, false), Some(ExactFixup { snapshot: 4, restore_hidden: false }));
}

#[test]
fn only_written_blocks_are_cached() {
    let s = prompt_state(40, 5);
    let e = cache_extent(&s, 70, 16);
    assert_eq!((e.blocks, e.capped, e.tokens, e.table, e.disk), (2, true, 32, 2, 0));
    let s = prompt_state(70, 5);
    let e = cache_extent(&s, 70, 16);
    assert_eq!((e.blocks, e.capped, e.tokens, e.table), (4, false, 70, 4));
    let short = prompt_state(70, 3);
    assert_eq!(cache_extent(&short, 70, 16).table, 3);
}

#[test]
fn a_prompt_enters_the_cache_as_far_as_it_may() {
    let mut s = prompt_state(40, 5);
    s.cached_prefix_tokens = 48;
    match final_insert(&s, 70, 16, false, true, true) {
        FinalInsert::Prefix { extent, matched } => {
            assert_eq!((extent.tokens, matched), (32, 32));
        }
        other => panic!("{other:?}"),
    }
    assert_eq!(final_insert(&s, 70, 16, true, true, true), FinalInsert::Nothing);
    let mut s = prompt_state(70, 5);
    assert_eq!(final_insert(&s, 70, 16, false, true, true), FinalInsert::SaveLeaf);
    assert_eq!(final_insert(&s, 70, 16, false, false, true), FinalInsert::Whole);
    assert_eq!(final_insert(&s, 70, 16, true, false, true), FinalInsert::Nothing);
    assert_eq!(final_insert(&s, 15, 16, false, true, true), FinalInsert::Nothing);
    s.tail_checkpoint_tokens = Some(64);
    assert_eq!(final_insert(&s, 70, 16, false, true, false), FinalInsert::Whole);
    s.marconi_exact_snap = Some(1);
    assert_eq!(final_insert(&s, 70, 16, false, true, false), FinalInsert::Nothing);
    let mut slid = prompt_state(70, 5);
    slid.disk_block_ids = vec![0; 6];
    assert_eq!(final_insert(&slid, 70, 16, false, false, false), FinalInsert::Nothing);
}

#[test]
fn a_nearby_tail_stands_in_for_the_leaf() {
    assert!(matches!(exact_leaf(Some(64), 70, 16, false), ExactLeaf::Redundant { .. }));
    assert!(!matches!(exact_leaf(None, 70, 16, false), ExactLeaf::Redundant { .. }));
    assert!(!matches!(exact_leaf(Some(64), 70, 16, true), ExactLeaf::Redundant { .. }));
    assert!(!matches!(exact_leaf(Some(16), 70, 16, false), ExactLeaf::Redundant { .. }));
    assert!(marconi_exact_enabled(Some("1")));
    assert!(!marconi_exact_enabled(Some("true")));
    assert!(!marconi_exact_enabled(None));
}

#[test]
fn checkpoints_fall_on_tails_and_intervals() {
    let at = |end_token, end_block, is_prompt_tail| {
        Some(Checkpoint { end_token, end_block, is_prompt_tail })
    };
    assert_eq!(checkpoint_wanted(true, 70, 64, 16, 0, 64), at(64, 4, true));
    assert_eq!(checkpoint_wanted(true, 70, 48, 16, 0, 64), at(48, 3, true));
    assert_eq!(checkpoint_wanted(true, 70, 32, 16, 0, 64), None);
    assert_eq!(checkpoint_wanted(true, 70, 32, 16, 2, 64), at(32, 2, false));
    assert_eq!(checkpoint_wanted(true, 70, 32, 16, 2, 31), None);
    assert_eq!(checkpoint_wanted(false, 70, 64, 16, 2, 64), None);
    assert_eq!(checkpoint_wanted(true, 70, 8, 16, 1, 64), None);

    let tail = Checkpoint { end_token: 64, end_block: 4, is_prompt_tail: true };
    let mut s = prompt_state(64, 5);
    let insert = |disk| CheckpointInsert::Insert { blocks: 4, disk };
    assert_eq!(checkpoint_insert(&s, &tail, false), insert(0));
    assert_eq!(checkpoint_insert(&s, &tail, true), CheckpointInsert::Free);
    s.disk_block_ids = vec![0; 4];
    assert_eq!(checkpoint_insert(&s, &tail, false), insert(4));
    s.disk_block_ids = vec![0; 6];
    assert_eq!(checkpoint_insert(&s, &tail, false), CheckpointInsert::Free);
    assert_eq!(checkpoint_insert(&prompt_state(64, 3), &tail, false), CheckpointInsert::Free);
    checkpoint_inserted(&mut s, &Checkpoint { is_prompt_tail: false, ..tail });
    assert_eq!(s.tail_checkpoint_tokens, None);
    checkpoint_inserted(&mut s, &tail);
    assert_eq!(s.tail_checkpoint_tokens, Some(64));
}

#[test]
fn a_pass_captures_where_it_crosses_the_boundary() {
    let gate = CaptureGate {
        switch_on: true,
        snapshots_enabled: true,
        kernels_capture: true,
        session_has_history: true,
    };
    let s = prompt_state(0, 0);
    assert_eq!(capture_point(&s, &gate, Some(64), 32, 40), Some(32));
    assert_eq!(capture_point(&s, &gate, Some(64), 64, 40), None);
    assert_eq!(capture_point(&s, &gate, Some(72), 32, 40), None);
    assert_eq!(capture_point(&s, &gate, None, 32, 40), None);
    let cold = CaptureGate { session_has_history: false, ..gate };
    assert_eq!(capture_point(&s, &cold, Some(64), 32, 40), None);
    let mut warm = prompt_state(0, 0);
    warm.cached_prefix_tokens = 16;
    assert_eq!(capture_point(&warm, &cold, Some(64), 32, 40), Some(32));
    let off = CaptureGate { kernels_capture: false, ..gate };
    assert_eq!(capture_point(&s, &off, Some(64), 32, 40), None);

    let in_pass = EarlyCapture::InPass { cap_local: 16, tb: 48 };
    assert_eq!(early_capture(32, 64, 16), in_pass);
    assert_eq!(early_capture(16, 64, 16), EarlyCapture::PrePass { tb: 48 });
    assert_eq!(early_capture(8, 64, 16), EarlyCapture::Skip);
    assert_eq!(early_capture(32, 16, 16), EarlyCapture::Skip);

    let tail = Registration { tokens: 64, slot: 1, sibling: false };
    let plan = capture_plan(32, 64, 1, in_pass, Some(2));
    assert_eq!(plan.cap_local_early, Some(16));
    let sibling = Registration { tokens: 48, slot: 2, sibling: true };
    assert_eq!(capture_registrations(&plan), vec![tail, sibling]);
    let plan = capture_plan(16, 64, 1, EarlyCapture::PrePass { tb: 48 }, Some(2));
    assert_eq!(plan.cap_local_early, None);
    assert_eq!(capture_registrations(&plan), vec![tail, sibling]);
    let plan = capture_plan(32, 64, 1, in_pass, None);
    assert_eq!(capture_registrations(&plan), vec![tail]);
}

#[test]
fn every_position_but_the_last_is_scored() {
    let mut s = prompt_state(0, 0);
    assert_eq!(score_batches(&s, 70, 0, 5, 70), Ok(Vec::new()));
    s.collect_prompt_logprobs = Some(0);
    assert_eq!(
        score_batches(&s, 70, 0, 5, 65),
        Err(PartialChunk { proc_start: 5, chunk_start: 0 })
    );
    let batches = score_batches(&s, 70, 0, 0, 70).unwrap();
    assert_eq!(batches.iter().map(|b| b.len).collect::<Vec<_>>(), vec![32, 32, 5]);
    assert!(score_batches(&s, 70, 69, 69, 1).unwrap().is_empty());
    let batch = Chunk { offset: 1, len: 2, is_last: true };
    assert_eq!(score_targets(&[10, 11, 12, 13, 14], 1, &batch), vec![13, 14]);
}

#[test]
fn a_prompt_end_is_not_checkpointed_while_decoding() {
    let mut s = prompt_state(0, 9);
    commit_chunk(&mut s, &[1; 64], 0, 64, 16);
    let inputs = |tokens_len| CkptInputs {
        enabled: true,
        num_ssm_layers: 1,
        hss_window_start: 0,
        slot_idx: 0,
        tokens_len,
        block_size: 16,
        block_table_len: 9,
        last_ckpt_block: s.last_decode_ckpt_block,
        interval: 1,
    };
    assert!(decode_ckpt_plan(&inputs(64)).is_none());
    assert!(decode_ckpt_plan(&inputs(79)).is_none());
    let plan = decode_ckpt_plan(&inputs(80)).unwrap();
    assert_eq!((plan.snap_tokens, plan.end_block), (80, 5));
}

#[test]
fn a_payload_of_another_length_is_refused() {
    assert_eq!(decode_ckpt_payload(&[1, 2, 3]), Err(BadPayload { words: 3 }));
    let (plan, session, adapter) = decode_ckpt_payload(&[64, 4, 1, 2, 3, 0]).unwrap();
    assert_eq!((plan.snap_tokens, plan.end_block), (64, 4));
    assert_eq!((session, adapter), ((2u64 << 32) + 1, 3));
}

#[test]
fn ranks_compare_what_rank_zero_sent() {
    assert!(agreement_needed(2, 1));
    assert!(!agreement_needed(1, 5));
    assert!(!agreement_needed(2, 0));
    let sent = encode_items(&[("a", 0x0102_0304_0506_0708), ("b", u64::MAX)]);
    assert_eq!(sent[..8], 0x0102_0304_0506_0708u64.to_le_bytes());
    assert_eq!(decode_values(&sent), vec![0x0102_0304_0506_0708, u64::MAX]);
    assert_eq!(decode_values(&sent[..15]), vec![0x0102_0304_0506_0708]);
    let root = decode_values(&sent);
    let same = [("a", 0x0102_0304_0506_0708), ("b", u64::MAX)];
    assert!(check_ranks_agree(&same, &root, 1).is_ok());
    assert_eq!(
        mismatches(&[("a", 7), ("b", 0)], &root, 3),
        vec![
            "a: rank 3 has 7, rank 0 has 72623859790382856".to_string(),
            "b: rank 3 has 0, rank 0 has 18446744073709551615".to_string(),
        ]
    );
    let text = check_ranks_agree(&[("a", 7), ("b", 0)], &root, 3).unwrap_err();
    assert!(text.starts_with("ranks disagree on collective-shaping config"));
    assert!(text.ends_with("rank 0 has 72623859790382856; b: rank 3 has 0, rank 0 has 18446744073709551615"));
}

#[test]
fn a_drafter_gets_its_context_from_its_own_capture() {
    let mut s = prompt_state(0, 0);
    s.prompt_len = 3;
    s.tokens = vec![1, 2, 3];
    s.mtp_capture_gen = 9;
    let d = DrafterInputs {
        hidden_null: false,
        has_state: true,
        captured: 3,
        capture_gen: 9,
        carry_on: true,
        drafter_rows: 0,
    };
    let cold = |free_carry| DrafterAction::ColdPrefill { free_carry };
    assert_eq!(ensure_drafter_context(&s, &d), cold(true));
    assert_eq!(ensure_drafter_context(&s, &DrafterInputs { carry_on: false, ..d }), cold(false));
    let foreign = DrafterInputs { capture_gen: 10, ..d };
    assert_eq!(ensure_drafter_context(&s, &foreign), DrafterAction::TryCarry);
    let held = DrafterInputs { drafter_rows: 1, ..foreign };
    assert_eq!(ensure_drafter_context(&s, &held), DrafterAction::Nothing);
    let bare = DrafterInputs { has_state: false, ..d };
    assert_eq!(ensure_drafter_context(&s, &bare), DrafterAction::Nothing);
    assert_eq!(generate_route(true, true), GenerateRoute::SelfSpeculative);
    assert_eq!(generate_route(false, true), GenerateRoute::Proposer);
    assert_eq!(generate_route(false, false), GenerateRoute::Plain);
}

#[test]
fn carried_rows_are_adopted_or_freed() {
    let mut s = prompt_state(0, 0);
    s.tokens = vec![1, 2, 3];
    s.session_hash = 5;
    let mut carry = None;
    assert_eq!(store_carry(&mut carry, &s, vec![7, 8], 2, Some(1)), None);
    assert_eq!(store_carry(&mut carry, &s, vec![9], 3, None), Some(vec![7, 8]));
    let entry = carry.as_ref().unwrap();
    assert_eq!((entry.rows, entry.session_hash, entry.tokens.len()), (3, 5, 3));

    let no = CarryAdmission { usable: None, session_matches: true, common_prefix: 2 };
    let done = |outcome, free_blocks| CarryStep::Done { outcome, free_blocks };
    assert_eq!(carry_admit(&None, no, 5), done(CarryOutcome::NoCarry, false));
    assert_eq!(
        carry_admit(&carry, no, 5),
        done(CarryOutcome::PrefixMismatch { common: 2, entry_rows: 3 }, true)
    );
    assert_eq!(
        carry_admit(&carry, CarryAdmission { session_matches: false, ..no }, 6),
        done(CarryOutcome::ForeignSession { entry_session: 5, prompt_session: 6 }, true)
    );
    let yes = CarryAdmission { usable: Some((2, 1)), ..no };
    assert_eq!(carry_admit(&carry, yes, 5), CarryStep::Install { rows: 2, last_key: 1 });

    let done = |outcome, free_blocks| CarryAppend::Done { outcome, free_blocks };
    assert_eq!(carry_append(false, 2, Some(2), 1, 1), done(CarryOutcome::NoCarry, true));
    assert_eq!(
        carry_append(true, 2, Some(2), 1, 1),
        CarryAppend::Append { rows: 2, first_key: 2, pos_base: 3 }
    );
    assert_eq!(
        carry_append(true, 2, None, 4, 1),
        done(CarryOutcome::ForeignHiddens { owner: 4, expected: 1 }, false)
    );
    assert_eq!(carry_append(true, 2, None, 0, 1), done(CarryOutcome::NoHiddens, false));
    assert_eq!(append_tokens(&vec![1, 2, 3, 4], 3, 1), vec![2, 3]);
    assert_eq!(
        carry_adopted(2, 2, None),
        CarryOutcome::Adopted { rows: 2, appended: 0, first_key: 2 }
    );
    assert_eq!(
        carry_adopted(2, 2, Some(4)),
        CarryOutcome::Adopted { rows: 2, appended: 4, first_key: 2 }
    );
}

#[test]
fn hidden_rows_are_stashed_in_their_slots() {
    let copy = |src_offset, dst_offset| RowCopy { src_offset, dst_offset, bytes: 20 };
    assert_eq!(
        stash_verify_hidden_rows(false, &[4, 1], 2, 10),
        Ok(vec![copy(80, 0), copy(20, 20)])
    );
    assert_eq!(stash_verify_hidden_rows(true, &[4], 2, 10), Err(StashError::NotAllocated));
    assert_eq!(
        stash_verify_hidden_rows(false, &[4, 1, 0], 2, 10),
        Err(StashError::TooManyRows { rows: 3 })
    );
    assert_eq!(stashed_row_offset(false, 1, 2, 10), Ok(20));
    assert_eq!(stashed_row_offset(false, 2, 2, 10), Err(StashError::SlotOutOfRange { slot: 2 }));
    assert_eq!(stashed_row_offset(true, 0, 2, 10), Err(StashError::NotAllocated));
    assert_eq!(stash_offsets(&[2, 0], 10), vec![40, 0]);
    assert_eq!(catchup_offsets(2, 3, 10), vec![60, 80]);
    let c = stash_verify_catchup_rows(true, false, &[(1, 5), (4, 0), (0, 0)], 4, 10);
    assert_eq!((c.copies, c.bad_slot), (vec![copy(100, 20)], Some(4)));
    let c = stash_verify_catchup_rows(false, false, &[(1, 5)], 4, 10);
    assert!(c.copies.is_empty() && c.bad_slot.is_none());
}

#[test]
fn the_catchup_ring_holds_consecutive_positions() {
    let mut ring = CatchupRing { start: 0, count: 0 };
    assert_eq!(ring.store(5, 3), 2);
    assert_eq!(ring, CatchupRing { start: 5, count: 1 });
    ring.store(6, 3);
    ring.store(7, 3);
    assert_eq!(ring, CatchupRing { start: 5, count: 3 });
    // A full ring drops its oldest row, and a gap starts over.
    assert_eq!(ring.store(8, 3), 2);
    assert_eq!(ring, CatchupRing { start: 6, count: 3 });
    ring.store(20, 3);
    assert_eq!(ring, CatchupRing { start: 20, count: 1 });
}

#[test]
fn workers_join_a_propose_that_communicates() {
    let mut s = SequenceState::host_only(3);
    assert!(propose_words(true, false, &s, 1, 2, 3, 4).is_none());
    assert!(propose_words(false, true, &s, 1, 2, 3, 4).is_none());
    let w = propose_words(true, true, &s, 1, 2, 3, 4).unwrap();
    assert_eq!((w.slot, w.token, w.position, w.num_drafts, w.hidden_row), (3, 1, 2, 3, 4));
    assert_eq!(first_draft(&vec![9, 8]), Some(9));
    assert_eq!(first_draft(&Vec::new()), None);
    assert!(batched_propose_wanted(true, false, false));
    assert!(!batched_propose_wanted(true, true, false));
    assert!(!batched_propose_wanted(true, false, true));
    assert!(!all_have_state(&vec![&s]));
    s.proposer_state = Some(1);
    assert!(all_have_state(&vec![&s]));
}

#[test]
fn resources_are_released_in_order_and_the_first_failure_reported() {
    let order = release_pools(true);
    assert_eq!(order.len(), 6);
    assert_eq!(order[0], Resource::DerivedWeights);
    assert_eq!(order[5], Resource::WeightStore);
    assert_eq!(release_pools(false), order[..5].to_vec());
    assert_eq!(pool_still_held(1), None);
    assert_eq!(pool_still_held(3), Some(2));
    let outcome = |failed: [bool; 3]| {
        let done: Vec<Released> = failed
            .iter()
            .map(|&failed| Released { resource: Resource::KvCache, failed })
            .collect();
        first_failure(&done)
    };
    assert_eq!(outcome([false, true, true]), Some(1));
    assert_eq!(outcome([false, false, false]), None);
}

#[test]
fn numbers_are_read_with_an_optional_sign_and_within_range() {
    assert_eq!(parse_usize("+7"), Some(7));
    assert_eq!(parse_usize("007"), Some(7));
    for text in ["+", "-7", "7 ", "++7", "18446744073709551616"] {
        assert_eq!(parse_usize(text), None);
    }
    assert_eq!(parse_usize("18446744073709551615"), Some(usize::MAX));
}

#[test]
fn switches_are_armed_by_their_words() {
    assert!(value_switch_armed(Some("1")));
    assert!(!value_switch_armed(Some("0")));
    assert!(!value_switch_armed(None));
    assert!(k4_diag_enabled(Some("1")));
    assert!(!k4_diag_enabled(None));
    assert!(!verify_d2h_default_stream(None));
    assert!(!verify_d2h_no_pinned(None));
}
