//! Speculative verify: rows, graphs, tables and rollback.

use metrale_model_engine::graph_cache::SlotGraphs;
use metrale_model_engine::layers::LayerType;
use metrale_model_engine::phases::{
    batch_verify_next, verify_next, BatchVerifyPhase, VerifyPhase,
};
use metrale_model_engine::sequence_state::{
    DevicePtr, LayerState, SequenceState, SlotGuard, SsmLayerState,
};
use metrale_model_engine::verify_batched::{
    batch_blocks, batch_rows, can_batch_verify, check_restage, commit_batch, forward_rows,
    readback, run_verify_layers, stage_verify_metadata, verify_batched_graph_key,
    verify_rows_argmax, write_on_accept_wanted, BatchStep, BatchVerifyEnv, BatchVerifyError,
    DraftBands, FoldPermit, Readback,
};
use metrale_model_engine::verify_graphs::{
    ghost_rows_within, ghost_slot_ok, BatchGraphs, BorrowCandidate, OutcomeCounts,
    VerifyGraphOutcome,
};
use metrale_model_engine::sequence_compact::LayerAddresses;
use metrale_model_engine::verify_single::{
    commit_rows, decode_argmax, eager_steps, eager_verify, embed_rows, finish_capture,
    plan_forward, row_blocks, row_lens, still_suppressed, token_metadata, token_staging_fits, use_graphs,
    verify_metadata, EagerVerify, ForwardAction, HiddenCapture, LayerRoute, ReplayStep, VerifyEnv,
    VerifyKind, VerifyStep,
};
use metrale_model_engine::verify_ssm::{
    checkpoint_need, checkpoint_ssm_states, decode_ring_slot, rollback_ssm_states, CheckpointNeed,
    SsmDims, SsmStateError,
};
use metrale_model_engine::verify_switches::{
    capture_all_on, ep_verify_graphs_on, on_unless_zero, verify_graphs_on,
};
use metrale_model_engine::verify_wy::{
    batch_slots, ghost_column, record_staged_key, restage_rows, upload_verify_wy_tables, wy_lookup,
    WyLookup, WyShape, WyStage,
};

const LINEAR: LayerType = LayerType::LinearAttention;
const FULL: LayerType = LayerType::FullAttention;
const SLIDING: LayerType = LayerType::SlidingAttention;

fn env() -> VerifyEnv {
    VerifyEnv {
        has_comm: false,
        hss_engaged: false,
        lora_eager: false,
        suppressed: false,
        force_eager: false,
        ep_graphs: false,
        graph_trace: false,
        no_cache: false,
        capture_all: true,
    }
}

fn recurrent(base: u64, intermediates: usize) -> LayerState {
    LayerState::Ssm(SsmLayerState {
        h_state: DevicePtr(base),
        conv_state: DevicePtr(base + 1),
        h_prefill_stage: None,
        h_state_checkpoint: None,
        conv_state_checkpoint: None,
        h_state_intermediates: (0..intermediates).map(|t| DevicePtr(base + 10 + t as u64)).collect(),
        conv_state_intermediates: (0..intermediates).map(|t| DevicePtr(base + 20 + t as u64)).collect(),
    })
}

fn slotted(slot: usize, seq_len: usize, table: Vec<u32>) -> SequenceState {
    let mut s = SequenceState::host_only(slot);
    s.ssm_slot = Some(SlotGuard { slot: Some(slot) });
    s.seq_len = seq_len;
    s.block_table = table;
    s
}

#[test]
fn verify_rows_carry_their_own_position_and_slot() {
    let s = slotted(1, 30, vec![5, 6, 7]);
    let m = verify_metadata(&s, 3, 16, 4);
    assert_eq!(m.positions, vec![30, 31, 32]);
    // Positions 30 and 31 lie in block 1, position 32 in block 2.
    assert_eq!(m.slots, vec![6 * 16 + 14, 6 * 16 + 15, 7 * 16]);
    assert_eq!(m.seq_lens, vec![31, 32, 33]);
    assert_eq!(m.block_table, vec![5, 6, 7, 0, 5, 6, 7, 0, 5, 6, 7, 0]);
    assert_eq!(row_blocks(30, 3, 16), vec![1, 1, 2]);
    let rows = embed_rows(&[9, 8], 100);
    assert_eq!(rows[1].token, 8);
    assert_eq!(rows[1].offset, 200);
}

#[test]
fn a_row_decoded_on_its_own_falls_back_to_the_dummy_block() {
    let s = slotted(1, 40, vec![5, 6]);
    let m = token_metadata(&s, 1, 16, 99);
    assert_eq!(m.pos, 41);
    assert_eq!(m.position, 41);
    assert_eq!(m.slot, 99 * 16 + 9);
    assert_eq!(m.seq_len, 42);
    assert_eq!(m.block_table, vec![5, 6]);
    assert_eq!(m.max_blocks, 2);
    assert!(token_staging_fits(4028));
    assert!(!token_staging_fits(4029));
}

#[test]
fn eager_verify_splits_by_the_number_of_tokens() {
    assert_eq!(eager_verify(&[]), EagerVerify::Empty);
    assert_eq!(eager_verify(&[4]), EagerVerify::Decode { token: 4 });
    assert_eq!(eager_verify(&[4, 5]), EagerVerify::Rows { k: 2 });
    let steps = eager_steps(&vec![FULL, LINEAR, SLIDING], 30, 2, 10);
    let layer = |layer, route| VerifyStep::Layer { layer, route, pos: 30, rows: 2 };
    assert_eq!(steps[0], layer(0, LayerRoute::PerToken));
    assert_eq!(steps[1], layer(1, LayerRoute::Batched));
    assert_eq!(steps[2], layer(2, LayerRoute::PerToken));
    assert_eq!(row_lens(30, 3), vec![30, 31, 32]);
    assert!(row_lens(30, 0).is_empty());
    assert_eq!(steps[6], VerifyStep::Argmax { logits_offset: 20, out_offset: 4 });
    assert_eq!(steps.len(), 7);
}

#[test]
fn graphs_are_used_only_where_a_capture_is_legal() {
    let types = vec![FULL, LINEAR];
    assert!(use_graphs(VerifyKind::K3, &env(), &types));
    assert!(!use_graphs(VerifyKind::K3, &env(), &vec![FULL, SLIDING]));
    let comm = VerifyEnv { has_comm: true, ..env() };
    assert!(!use_graphs(VerifyKind::K3, &comm, &types));
    assert!(use_graphs(VerifyKind::K3, &VerifyEnv { ep_graphs: true, ..comm }, &types));
    assert!(use_graphs(VerifyKind::K3, &VerifyEnv { graph_trace: true, ..comm }, &types));
    assert!(!use_graphs(VerifyKind::KGamma, &VerifyEnv { ep_graphs: true, ..comm }, &types));
    assert!(!use_graphs(VerifyKind::KGamma, &VerifyEnv { suppressed: true, ..env() }, &types));
    assert!(!use_graphs(VerifyKind::KGamma, &VerifyEnv { force_eager: true, ..env() }, &types));
    assert!(use_graphs(VerifyKind::Fused, &VerifyEnv { force_eager: true, ..env() }, &types));
    assert!(!use_graphs(VerifyKind::Fused, &VerifyEnv { suppressed: true, ..env() }, &types));
    assert!(!use_graphs(VerifyKind::Fused, &VerifyEnv { hss_engaged: true, ..env() }, &types));
    assert!(!use_graphs(VerifyKind::K3, &VerifyEnv { lora_eager: true, ..env() }, &types));
    assert!(still_suppressed(true, 0, true));
    assert!(still_suppressed(true, 8, false));
    assert!(!still_suppressed(true, 8, true));
}

#[test]
fn a_forward_replays_what_it_captured() {
    let types = vec![FULL, LINEAR];
    let s = slotted(4, 10, vec![1]);
    let mut cache = SlotGraphs::new();
    match plan_forward(VerifyKind::K3, &env(), &types, &s, 3, 10, &cache) {
        ForwardAction::Run { steps, keep } => {
            assert!(keep);
            assert_eq!(steps[0], VerifyStep::BeginCapture);
            let first =
                VerifyStep::Layer { layer: 0, route: LayerRoute::MultiSeq, pos: 10, rows: 3 };
            assert_eq!(steps[1], first);
            assert_eq!(
                steps[2],
                VerifyStep::CaptureHidden { layer: 0, capture: HiddenCapture::Row(2) }
            );
            assert_eq!(*steps.last().unwrap(), VerifyStep::EndCapture);
            assert_eq!(steps.len(), 1 + 4 + 2 + 3 + 1);
        }
        _ => panic!("nothing was captured yet"),
    }
    // A null graph is neither kept nor launched.
    assert!(!finish_capture(&mut cache, 4, 3, 0, true));
    assert_eq!(cache.get(4, 3), None);
    assert!(finish_capture(&mut cache, 4, 3, 77, true));
    match plan_forward(VerifyKind::K3, &env(), &types, &s, 3, 10, &cache) {
        ForwardAction::Replay { replay } => assert_eq!(
            replay,
            vec![
                ReplayStep::CheckRoom { layer: 0, pos: 10, rows: 3 },
                ReplayStep::CheckRoom { layer: 1, pos: 10, rows: 3 },
                ReplayStep::Launch { graph: 77 },
                ReplayStep::Sync { layer: 0, pos: 10, rows: 3 },
                ReplayStep::Sync { layer: 1, pos: 10, rows: 3 },
            ]
        ),
        _ => panic!("the captured graph is replayed"),
    }
    // Another slot has no graph, and graphs that are off replay nothing.
    let other = slotted(5, 10, vec![1]);
    assert!(matches!(
        plan_forward(VerifyKind::K3, &env(), &types, &other, 3, 10, &cache),
        ForwardAction::Run { .. }
    ));
    let off = VerifyEnv { lora_eager: true, ..env() };
    match plan_forward(VerifyKind::K3, &off, &types, &s, 3, 10, &cache) {
        ForwardAction::Run { steps, keep } => {
            assert!(!keep);
            assert!(!steps.contains(&VerifyStep::BeginCapture));
        }
        _ => panic!("graphs are off"),
    }
}

#[test]
fn the_drafter_gets_the_rows_its_verify_hands_over() {
    let types = vec![LINEAR];
    let s = slotted(0, 0, vec![]);
    let cache = SlotGraphs::new();
    let rows = |kind, e: &VerifyEnv, k| match plan_forward(kind, e, &types, &s, k, 10, &cache) {
        ForwardAction::Run { steps, .. } => steps
            .iter()
            .find_map(|x| match x {
                VerifyStep::CaptureHidden { capture, .. } => Some(*capture),
                _ => None,
            })
            .unwrap(),
        _ => panic!("nothing is cached"),
    };
    assert_eq!(rows(VerifyKind::KGamma, &env(), 5), HiddenCapture::All(5));
    let last = VerifyEnv { capture_all: false, ..env() };
    assert_eq!(rows(VerifyKind::KGamma, &last, 5), HiddenCapture::Row(4));
    assert_eq!(rows(VerifyKind::Fused, &env(), 5), HiddenCapture::Row(0));
    assert!(matches!(
        plan_forward(VerifyKind::KGamma, &env(), &types, &s, 0, 10, &cache),
        ForwardAction::Nothing
    ));
    let traced = VerifyEnv { graph_trace: true, ..env() };
    assert!(matches!(
        plan_forward(VerifyKind::K3, &traced, &types, &s, 3, 10, &cache),
        ForwardAction::Run { keep: false, .. }
    ));
}

#[test]
fn argmax_words_are_little_endian() {
    assert_eq!(decode_argmax(&[1, 0, 0, 0, 0x78, 0x56, 0x34, 0x12, 9], 2), vec![1, 0x1234_5678]);
}

#[test]
fn committing_appends_every_row() {
    let mut s = slotted(1, 3, vec![]);
    s.tokens = vec![7, 7, 7];
    commit_rows(&mut s, &[1, 2]);
    assert_eq!(s.tokens, vec![7, 7, 7, 1, 2]);
    assert_eq!(s.seq_len, 5);
}

#[test]
fn a_batch_is_admitted_only_in_a_shape_the_kernels_take() {
    let e = BatchVerifyEnv {
        max_seqs: 8,
        bands: None,
        has_comm: false,
        lora_loaded: false,
        lora_no_batch: false,
        stash_null: false,
        any_layer_declines: false,
        hss_engaged: false,
    };
    assert!(can_batch_verify(&[2, 4], &e));
    assert!(!can_batch_verify(&[2], &e));
    assert!(!can_batch_verify(&[2, 5], &e));
    assert!(!can_batch_verify(&[1, 2], &e));
    assert!(!can_batch_verify(&[2; 9], &e));
    assert!(!can_batch_verify(&[4; 41], &BatchVerifyEnv { max_seqs: 64, ..e }));
    assert!(can_batch_verify(&[4; 40], &BatchVerifyEnv { max_seqs: 64, ..e }));
    assert!(!can_batch_verify(&[2, 2], &BatchVerifyEnv { has_comm: true, ..e }));
    assert!(!can_batch_verify(&[2, 2], &BatchVerifyEnv { stash_null: true, ..e }));
    assert!(!can_batch_verify(&[2, 2], &BatchVerifyEnv { any_layer_declines: true, ..e }));
    assert!(!can_batch_verify(&[2, 2], &BatchVerifyEnv { hss_engaged: true, ..e }));
    let lora = BatchVerifyEnv { lora_loaded: true, ..e };
    assert!(can_batch_verify(&[2, 2], &lora));
    assert!(!can_batch_verify(&[2, 2], &BatchVerifyEnv { lora_no_batch: true, ..lora }));
    let bands = BatchVerifyEnv { bands: Some(DraftBands { kgamma: 6, save_rows: 12 }), ..e };
    assert!(can_batch_verify(&[5, 5], &bands));
    assert!(!can_batch_verify(&[5, 4], &bands));
    assert!(!can_batch_verify(&[5, 5, 5], &bands));
    assert!(!can_batch_verify(&[7, 7], &bands));
}

#[test]
fn the_rows_of_a_batch_are_sequence_major() {
    let r = batch_rows(&[2, 3, 4], 3, 9, None).unwrap();
    assert_eq!(r.off, vec![0, 2, 5, 9]);
    assert_eq!(r.r_total, 9);
    assert_eq!(r.k_max, 4);
    let shape = |r: Result<_, BatchVerifyError>| matches!(r, Err(BatchVerifyError::Shape));
    assert!(shape(batch_rows(&[2], 1, 2, None).map(|_| ())));
    assert!(shape(batch_rows(&[2, 2], 3, 4, None).map(|_| ())));
    assert!(shape(batch_rows(&[2, 5], 2, 7, None).map(|_| ())));
    assert!(shape(batch_rows(&[2, 2], 2, 5, None).map(|_| ())));
    assert!(shape(batch_rows(&[usize::MAX, 2], 2, 1, Some(usize::MAX)).map(|_| ())));
    assert!(batch_rows(&[6, 6], 2, 12, Some(6)).is_ok());
    assert!(matches!(
        batch_rows(&[100, 61], 2, 161, Some(100)),
        Err(BatchVerifyError::TooManyRows { rows: 161 })
    ));
}

#[test]
fn ghost_rows_point_only_at_the_dummy_block() {
    let mut a = slotted(1, 15, vec![5, 6]);
    a.adapter_slot = 3;
    let b = slotted(2, 4, vec![7]);
    let refs = vec![&a, &b];
    let m = stage_verify_metadata(&refs, &[2, 2], 16, 2, 99, 2);
    assert_eq!(m.positions, vec![15, 16, 4, 5, 0, 0]);
    assert_eq!(m.slots, vec![5 * 16 + 15, 6 * 16, 7 * 16 + 4, 7 * 16 + 5, 99 * 16, 99 * 16]);
    assert_eq!(m.seq_lens, vec![16, 17, 5, 6, 1, 1]);
    assert_eq!(m.block_table, vec![5, 6, 5, 6, 7, 0, 7, 0, 99, 0, 99, 0]);
    assert_eq!(m.adapter_slot, 3);
    assert_eq!(batch_blocks(&refs, &[2, 2], 16), vec![1, 0]);
    let (lens, owners) = forward_rows(&refs, &[2, 2]);
    assert_eq!(lens, vec![15, 16, 4, 5]);
    assert_eq!(owners, vec![0, 0, 1, 1]);
}

#[test]
fn each_layer_of_a_batch_gets_its_own_tables_and_states() {
    let types = vec![LINEAR, FULL, LINEAR, FULL];
    let steps = run_verify_layers(&types, &[2, 3], &vec![0, 2, 5], Some(1000), None, false);
    assert_eq!(
        steps,
        vec![
            BatchStep::VerifyMulti { layer: 0, wy_offset: Some(0) },
            BatchStep::Attention { layer: 1, attn_idx: 0 },
            BatchStep::VerifyMulti { layer: 2, wy_offset: Some(1000) },
            BatchStep::Attention { layer: 3, attn_idx: 1 },
        ]
    );
    let steps = run_verify_layers(&vec![LINEAR], &[2, 3], &vec![0, 2, 5], None, Some(8), true);
    assert_eq!(
        steps,
        vec![
            BatchStep::VerifyMulti { layer: 0, wy_offset: None },
            BatchStep::CaptureBand { layer: 0, row: 0, rows: 2, band: 0 },
            BatchStep::CaptureBand { layer: 0, row: 2, rows: 3, band: 8 },
            BatchStep::Sync { layer: 0 },
        ]
    );
    assert_eq!(verify_rows_argmax(true, 5, 10).len(), 1);
    let launches = verify_rows_argmax(false, 3, 10);
    assert_eq!(launches[2].logits_offset, 40);
    assert_eq!(launches[2].out_offset, 8);
}

#[test]
fn the_readback_follows_its_switches() {
    assert_eq!(readback(true, true, true, 4), Readback::Mapped);
    assert_eq!(readback(false, true, true, 4), Readback::DefaultStream);
    assert_eq!(readback(false, false, true, 4), Readback::OnStream);
    assert_eq!(readback(false, false, false, 4), Readback::Pinned);
    assert_eq!(readback(false, false, false, 16385), Readback::OnStream);
    assert!(verify_graphs_on(false, false));
    assert!(!verify_graphs_on(true, false));
    assert!(!verify_graphs_on(false, true));
}

#[test]
fn a_batch_commits_each_sequence_its_own_tokens() {
    let mut seqs = vec![slotted(1, 10, vec![]), slotted(2, 20, vec![])];
    commit_batch(&mut seqs, &[1, 2, 3, 4, 5], &[2, 3]);
    assert_eq!(seqs[0].tokens, vec![1, 2]);
    assert_eq!(seqs[0].seq_len, 12);
    assert_eq!(seqs[1].tokens, vec![3, 4, 5]);
    assert_eq!(seqs[1].seq_len, 23);
}

#[test]
fn a_batch_without_a_slot_is_not_captured() {
    let a = slotted(1, 0, vec![]);
    let b = slotted(9, 0, vec![]);
    assert_eq!(verify_batched_graph_key(&vec![&a, &b], &[2, 3]), Some(vec![(1, 2), (9, 3)]));
    let bare = SequenceState::host_only(3);
    assert_eq!(verify_batched_graph_key(&vec![&a, &bare], &[2, 3]), None);
    assert_eq!(verify_batched_graph_key(&vec![&a, &b], &[2]), None);
    assert_eq!(batch_slots(&vec![&a, &b]), Some(vec![1, 9]));
}

#[test]
fn the_fold_opens_only_after_a_verify_that_ran_for_it() {
    let mut permit = FoldPermit { eligible: true };
    permit.begin();
    assert!(!permit.eligible);
    permit.complete(true, false, true);
    assert!(permit.eligible);
    for (requested, null, bound) in [(false, false, true), (true, true, true), (true, false, false)] {
        permit.complete(requested, null, bound);
        assert!(!permit.eligible);
    }
    assert!(write_on_accept_wanted(true, false));
    assert!(!write_on_accept_wanted(true, true));
    assert!(check_restage(true, true).is_ok());
    assert_eq!(check_restage(true, false), Err(BatchVerifyError::RestageFlipped));
}

#[test]
fn the_least_recently_used_graph_makes_room() {
    let mut g = BatchGraphs::new();
    for i in 0..32u32 {
        let end = g.finish_verify_capture(Some(vec![i]), 100 + i as u64, VerifyGraphOutcome::Eager);
        assert_eq!(end.evicted, None);
        assert!(end.launch);
        assert_eq!(end.outcome, VerifyGraphOutcome::Capture);
    }
    // Key 0 is used again, so key 1 is now the oldest.
    let pick = g.pick_verify_graph(&Some(vec![0]), None, true, true, 4);
    assert_eq!(pick.replay, Some(100));
    assert_eq!(pick.outcome, VerifyGraphOutcome::Replay);
    let end = g.finish_verify_capture(Some(vec![77]), 500, VerifyGraphOutcome::Eager);
    assert_eq!(end.evicted, Some(101));
    assert_eq!(g.entries.len(), 32);
    assert!(g.find(&vec![1]).is_none());
    // A null graph changes nothing.
    let end = g.finish_verify_capture(Some(vec![78]), 0, VerifyGraphOutcome::Eager);
    assert!(!end.launch && end.evicted.is_none());
    assert!(g.find(&vec![78]).is_none());
    // Without a key the graph is launched and not kept.
    let end = g.finish_verify_capture(None, 600, VerifyGraphOutcome::Eager);
    assert!(end.launch);
    assert_eq!(g.entries.len(), 32);
    // Every key that names a slot goes with it.
    assert_eq!(g.remove_slot(77), vec![500]);
    assert_eq!(g.entries.len(), 31);
}

#[test]
fn a_wider_graph_is_borrowed_only_within_the_row_cap() {
    let mut g = BatchGraphs::new();
    g.finish_verify_capture(Some(vec![1, 2, 3]), 9, VerifyGraphOutcome::Eager);
    let candidate = |rows| {
        Some(BorrowCandidate { key: vec![1, 2, 3], ghosts: vec![(7, rows)] })
    };
    let miss = Some(vec![1, 2]);
    let pick = g.pick_verify_graph(&miss, candidate(4), true, true, 156);
    assert_eq!(pick.outcome, VerifyGraphOutcome::Borrow);
    assert_eq!(pick.replay, Some(9));
    assert_eq!(pick.ghosts, vec![(7, 4)]);
    for (cand, enabled, allows, rows) in [
        (candidate(5), true, true, 156),
        (candidate(4), false, true, 156),
        (candidate(4), true, false, 156),
        (None, true, true, 156),
    ] {
        let pick = g.pick_verify_graph(&miss, cand, enabled, allows, rows);
        assert_eq!(pick.outcome, VerifyGraphOutcome::Eager);
        assert_eq!(pick.replay, None);
        assert!(pick.ghosts.is_empty());
    }
    let pick = g.pick_verify_graph(&None, candidate(4), true, true, 1);
    assert_eq!(pick.outcome, VerifyGraphOutcome::Eager);
    assert_eq!(ghost_rows_within(150, &vec![(1, 4), (2, 6)]), Some(10));
    assert_eq!(ghost_rows_within(150, &vec![(1, 4), (2, 7)]), None);
    assert!(ghost_slot_ok(true, false, 0, 9));
    assert!(ghost_slot_ok(true, true, 3, 4));
    assert!(!ghost_slot_ok(true, true, 3, 5));
    assert!(!ghost_slot_ok(false, false, 3, 1));
}

#[test]
fn outcomes_are_summed_up_once_a_period() {
    let mut c = OutcomeCounts::new();
    assert!(c.record(false, VerifyGraphOutcome::Replay).is_none());
    assert_eq!(c.steps, 0);
    for i in 0..199 {
        let o = if i % 2 == 0 { VerifyGraphOutcome::Replay } else { VerifyGraphOutcome::Borrow };
        assert!(c.record(true, o).is_none());
    }
    let done = c.record(true, VerifyGraphOutcome::Capture).unwrap();
    assert_eq!((done.steps, done.replay, done.borrow, done.capture, done.eager), (200, 100, 99, 1, 0));
    assert_eq!(c, OutcomeCounts::new());
}

#[test]
fn pointer_tables_list_states_then_ghosts() {
    let mut a = slotted(1, 0, vec![]);
    a.layer_states = vec![LayerState::Other, recurrent(100, 2)];
    let mut b = slotted(2, 0, vec![]);
    b.layer_states = vec![LayerState::Other, recurrent(200, 2)];
    let types = vec![FULL, LINEAR];
    let shape = WyShape { table_seqs: 4, tables_per_layer: 3, entries_per_layer: 12 };
    let seqs = vec![&a, &b];
    let ghosts = vec![(9, 2)];
    let columns = vec![vec![vec![900, 901]]];
    let mut cache = None;
    match upload_verify_wy_tables(false, &seqs, &types, 3, &ghosts, &columns, shape, true, &cache) {
        WyStage::Upload { words, key } => {
            assert_eq!(words, vec![100, 200, 900, 0, 110, 210, 901, 0, 111, 211, 0, 0]);
            assert_eq!(key, Some(vec![3, 2, 1, 2, 9, 2]));
            record_staged_key(&mut cache, key);
        }
        _ => panic!("the tables are uploaded"),
    }
    let again = upload_verify_wy_tables(false, &seqs, &types, 3, &ghosts, &columns, shape, true, &cache);
    assert!(matches!(again, WyStage::Cached));
    let off = upload_verify_wy_tables(false, &seqs, &types, 3, &ghosts, &columns, shape, false, &cache);
    assert!(matches!(off, WyStage::Upload { key: None, .. }));
    // Tables staged without a key leave none behind: the keyed batch is uploaded anew.
    record_staged_key(&mut cache, None);
    assert_eq!(cache, None);
    let anew = upload_verify_wy_tables(false, &seqs, &types, 3, &ghosts, &columns, shape, true, &cache);
    match anew {
        WyStage::Upload { words, key } => {
            assert_eq!(words, vec![100, 200, 900, 0, 110, 210, 901, 0, 111, 211, 0, 0]);
            record_staged_key(&mut cache, key);
        }
        _ => panic!("the tables are uploaded again"),
    }
    assert_eq!(cache, Some(vec![3, 2, 1, 2, 9, 2]));
    // No tables: a null buffer, a row count out of range, a batch too large, a state too short.
    let none = Vec::new();
    let no_columns = Vec::new();
    let null = |tables_null, seqs: &Vec<&SequenceState>, k, shape| {
        matches!(
            upload_verify_wy_tables(
                tables_null, seqs, &types, k, &none, &no_columns, shape, true, &None
            ),
            WyStage::Null
        )
    };
    assert!(null(true, &seqs, 3, shape));
    assert!(null(false, &seqs, 1, shape));
    assert!(null(false, &seqs, 4, shape));
    assert!(!null(false, &seqs, 3, shape));
    let narrow = WyShape { table_seqs: 1, tables_per_layer: 3, entries_per_layer: 12 };
    assert!(null(false, &seqs, 3, narrow));
    let mut short = slotted(3, 0, vec![]);
    short.layer_states = vec![LayerState::Other, recurrent(300, 1)];
    assert!(null(false, &vec![&a, &short], 3, shape));
    assert!(!null(false, &vec![&a, &short], 2, shape));
}

#[test]
fn a_batch_without_tables_reads_no_ghost_address() {
    let mut a = slotted(1, 0, vec![]);
    a.layer_states = vec![recurrent(100, 2)];
    let types = vec![LINEAR];
    let shape = WyShape { table_seqs: 2, tables_per_layer: 3, entries_per_layer: 6 };
    let seqs = vec![&a];
    // One ghost deeper than the tables, without a column.
    let deep = vec![(9, 50)];
    let stage = |null, types: &Vec<LayerType>, seqs: &Vec<&SequenceState>, k, cache: &Option<Vec<u64>>| {
        upload_verify_wy_tables(null, seqs, types, k, &deep, &Vec::new(), shape, true, cache)
    };
    assert!(matches!(stage(true, &types, &seqs, 3, &None), WyStage::Null));
    assert!(matches!(stage(false, &types, &seqs, 1, &None), WyStage::Null));
    assert!(matches!(stage(false, &types, &seqs, 50, &None), WyStage::Null));
    assert!(matches!(stage(false, &vec![FULL], &seqs, 3, &None), WyStage::Null));
    assert!(matches!(stage(false, &types, &vec![&a, &a], 3, &None), WyStage::Null));
    // Nor does one whose key is on record, or one whose own sequence lacks an address.
    let key = Some(vec![3, 1, 1, 9, 50]);
    assert!(matches!(stage(false, &types, &seqs, 3, &key), WyStage::Cached));
    let mut short = slotted(1, 0, vec![]);
    short.layer_states = vec![recurrent(100, 1)];
    assert!(matches!(stage(false, &types, &vec![&short], 3, &None), WyStage::Null));
    match wy_lookup(false, &seqs, &types, 3, &deep, shape, true, &None) {
        WyLookup::Build { key } => assert_eq!(key, Some(vec![3, 1, 1, 9, 50])),
        _ => panic!("the tables are not on the device"),
    }
    // Without a buffer not even the sequence's states are looked at.
    let bare = slotted(1, 0, vec![]);
    assert!(matches!(stage(true, &types, &vec![&bare], 3, &None), WyStage::Null));
}

#[test]
fn a_ghost_column_is_its_state_and_its_rows() {
    let at = LayerAddresses {
        h_state: DevicePtr(70),
        conv_state: DevicePtr(71),
        h_checkpoint: DevicePtr(72),
        conv_checkpoint: DevicePtr(73),
        h_intermediates: vec![DevicePtr(80), DevicePtr(81), DevicePtr(82)],
        conv_intermediates: vec![DevicePtr(90)],
    };
    assert_eq!(ghost_column(&at, 0), vec![70]);
    assert_eq!(ghost_column(&at, 1), vec![70]);
    assert_eq!(ghost_column(&at, 3), vec![70, 80, 81]);
    assert_eq!(ghost_column(&at, 4), vec![70, 80, 81, 82]);
    assert_eq!(restage_rows(3, &vec![]), 3);
    assert_eq!(restage_rows(3, &vec![(1, 2), (2, 3)]), 3);
    assert_eq!(restage_rows(3, &vec![(1, 2), (2, 6), (3, 4)]), 6);
}

#[test]
fn only_a_zero_turns_a_feature_off() {
    assert!(!on_unless_zero(Some("0")));
    for raw in [None, Some(""), Some("1"), Some("00"), Some("false"), Some(" 0")] {
        assert!(on_unless_zero(raw));
        assert!(ep_verify_graphs_on(raw));
        assert!(capture_all_on(raw, None));
        assert!(!capture_all_on(raw, Some("0")));
        assert!(!capture_all_on(Some("0"), raw));
    }
    assert!(!ep_verify_graphs_on(Some("0")));
    assert!(!capture_all_on(Some("0"), Some("0")));
}

#[test]
fn a_rollback_is_planned_for_every_layer_or_for_none() {
    let types = vec![LINEAR, FULL, LINEAR];
    let mut s = slotted(1, 0, vec![]);
    s.layer_states = vec![recurrent(100, 3), LayerState::Other, recurrent(200, 2)];
    let plan = rollback_ssm_states(&s, &types, 2, 64, 32).unwrap();
    assert_eq!(plan.h.len(), 2);
    assert_eq!(plan.h[0].src, DevicePtr(111));
    assert_eq!(plan.h[0].dst, DevicePtr(100));
    assert_eq!(plan.conv[1].src, DevicePtr(221));
    assert_eq!(plan.conv[1].bytes, 32);
    assert_eq!(
        rollback_ssm_states(&s, &types, 3, 64, 32).err(),
        Some(SsmStateError::TooFewIntermediates { layer: 2, available: 2 })
    );
    // Without a checkpoint there is nothing to roll back to.
    let plan = rollback_ssm_states(&s, &types, 0, 64, 32).unwrap();
    assert!(plan.h.is_empty() && plan.conv.is_empty());
    assert_eq!(checkpoint_need(&s, &types, 0), Ok(CheckpointNeed { h: true, conv: true }));
    assert_eq!(checkpoint_need(&s, &types, 1), Ok(CheckpointNeed { h: false, conv: false }));
    if let LayerState::Ssm(x) = &mut s.layer_states[0] {
        x.h_state_checkpoint = Some(DevicePtr(1));
        x.conv_state_checkpoint = Some(DevicePtr(2));
    }
    // Rolling back to nothing undoes the checkpoint.
    let save = checkpoint_ssm_states(&s, &types, 64, 32);
    let back = rollback_ssm_states(&s, &types, 0, 64, 32).unwrap();
    assert_eq!(save.h.len(), 1);
    assert_eq!((save.h[0].src, save.h[0].dst), (back.h[0].dst, back.h[0].src));
    assert_eq!((save.conv[0].src, save.conv[0].dst), (back.conv[0].dst, back.conv[0].src));
    s.layer_states[2] = LayerState::Other;
    assert_eq!(
        rollback_ssm_states(&s, &types, 0, 64, 32).err(),
        Some(SsmStateError::NotSsm { layer: 2 })
    );
    assert_eq!(checkpoint_need(&s, &types, 2), Err(SsmStateError::NotSsm { layer: 2 }));
}

#[test]
fn only_layers_that_roll_back_need_their_rows() {
    let types = vec![LINEAR, FULL, LINEAR];
    let bare = |mut state: LayerState| {
        if let LayerState::Ssm(x) = &mut state {
            x.conv_state_intermediates.clear();
        }
        state
    };
    let mut s = slotted(1, 0, vec![]);
    // A full-attention layer is not looked at.
    s.layer_states = vec![recurrent(100, 2), bare(recurrent(300, 0)), recurrent(200, 2)];
    let plan = rollback_ssm_states(&s, &types, 2, 64, 32).unwrap();
    assert_eq!((plan.h.len(), plan.conv.len()), (2, 2));
    // A refused rollback reads no convolution state, before the refusing layer or after it.
    s.layer_states = vec![bare(recurrent(100, 2)), LayerState::Other, recurrent(200, 1)];
    assert_eq!(
        rollback_ssm_states(&s, &types, 2, 64, 32).err(),
        Some(SsmStateError::TooFewIntermediates { layer: 2, available: 1 })
    );
    s.layer_states = vec![recurrent(100, 1), LayerState::Other, bare(recurrent(200, 2))];
    assert_eq!(
        rollback_ssm_states(&s, &types, 2, 64, 32).err(),
        Some(SsmStateError::TooFewIntermediates { layer: 0, available: 1 })
    );
}

#[test]
fn recurrent_sizes_and_the_decode_ring() {
    let d = SsmDims { key_heads: 2, key_dim: 3, value_heads: 4, value_dim: 5, conv_kernel: 4 };
    assert_eq!(d.conv_bytes(), (2 * 3 * 2 + 4 * 5) * 4 * 4);
    let s = slotted(6, 0, vec![]);
    assert_eq!(decode_ring_slot(true, &s, 3), Ok((6, 3)));
    assert_eq!(decode_ring_slot(false, &s, 3), Err(SsmStateError::NoDecodeRing));
}

#[test]
fn a_verify_commits_only_after_its_readback() {
    let mut phase = VerifyPhase::Embed;
    let mut seen = Vec::new();
    while phase != VerifyPhase::Done {
        seen.push(phase);
        phase = verify_next(phase, true);
    }
    assert_eq!(seen.len(), 6);
    assert_eq!(seen[4..], [VerifyPhase::Readback, VerifyPhase::Commit]);
    assert_eq!(verify_next(VerifyPhase::Readback, false), VerifyPhase::Failed);
    assert_eq!(verify_next(VerifyPhase::Failed, true), VerifyPhase::Failed);

    let mut phase = BatchVerifyPhase::Rows;
    let mut steps = 0;
    while phase != BatchVerifyPhase::Done {
        phase = batch_verify_next(phase, true, true);
        steps += 1;
    }
    assert_eq!(steps, 12);
    assert_eq!(
        batch_verify_next(BatchVerifyPhase::Pick, true, false),
        BatchVerifyPhase::Stage
    );
    assert_eq!(
        batch_verify_next(BatchVerifyPhase::Forward, false, false),
        BatchVerifyPhase::Failed
    );
}
