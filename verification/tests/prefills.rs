//! Prefill of one prompt: the lookup, the processed range, positions, slots and the layer steps.

use metrale_model_engine::cache_insert::{
    insert_action, save_step, InsertAction, SaveEvent, SavePhase,
};
use metrale_model_engine::chunks::{chunks, Chunk};
use metrale_model_engine::embed_chunk::{tokens_have_vision_pad, vision_rows, VisionRow};
use metrale_model_engine::forward_layers::{prefill_steps, stream_offsets, PrefillStep};
use metrale_model_engine::kv_rows::{
    causal_lens, kv_slot, positions, push_table_row, seq_slot, seq_slots, table_words,
};
use metrale_model_engine::layers::{any_layer, layer_indices, LayerType};
use metrale_model_engine::prefix_lookup::{
    adopt_match, agreed_depth, cap_match, decide_restore, finish_lookup, lookup_entry,
    match_is_voted, min_word, AgreementBroken, LookupEntry, MatchCap, MatchSource, Restore,
};
use metrale_model_engine::prefix_match::PrefixMatch;
use metrale_model_engine::prefix_reserve::{
    release_reservations, reserve_entry, reserve_verdict, stream_declines, MatchRelease,
    ReserveEntry,
};
use metrale_model_engine::proc_range::{ngram_context_start, proc_range, reembed_range, ProcRange};
use metrale_model_engine::sequence_state::{ChunkedPrefillPageMetadata, DevicePtr, SequenceState};
use metrale_model_engine::ssm_fault_in::{eff_ssm_snapshot, try_fault_in};
use metrale_model_engine::twophase::{
    check_twophase_pack, commit_prompt, last_block, layer_kv_write_start, twophase_adopt,
    twophase_layout, twophase_meta, twophase_range, twophase_restore, twophase_resume,
    twophase_route, twophase_steps, ProcSpan, TwophaseRoute, TwophaseStep,
};
use metrale_model_engine::upload_meta::{
    check_pack, chunk_slots, grid_hi, mark_uploaded, meta_layout, meta_offset, packer_capacity,
    page_upload, position_streams, positions_fit, GridWindow, MetaField, PackError, PositionStreams,
};

fn hit(tokens: usize, blocks: Vec<u32>) -> PrefixMatch {
    let mut m = PrefixMatch::empty();
    m.matched_tokens = tokens;
    m.matched_blocks = blocks;
    m
}

#[test]
fn a_slot_is_a_block_and_an_offset() {
    assert_eq!(kv_slot(7, 16, 35), 7 * 16 + 3);
    // The largest block does not overflow.
    assert_eq!(kv_slot(u32::MAX, 16, 15), u32::MAX as i64 * 16 + 15);
    let mut s = SequenceState::host_only(0);
    s.block_table = vec![4, 9];
    assert_eq!(seq_slot(&s, 17, 16, 0), 9 * 16 + 1);
    assert_eq!(seq_slot(&s, 32, 16, 50), 50 * 16);
    assert_eq!(seq_slots(&s, 15, 3, 16, 50), vec![79, 144, 145]);
    assert_eq!(positions(5, 3), vec![5, 6, 7]);
    assert_eq!(causal_lens(5, 3), vec![6, 7, 8]);
    let mut row = vec![1];
    push_table_row(&mut row, &s.block_table, 3);
    assert_eq!(row, vec![1, 4, 9, 0]);
    push_table_row(&mut row, &s.block_table, 1);
    assert_eq!(row, vec![1, 4, 9, 0, 4]);
    assert_eq!(table_words(&s.block_table), vec![4, 9]);
}

#[test]
fn layers_are_found_by_type() {
    let types = vec![LayerType::LinearAttention, LayerType::Other, LayerType::LinearAttention];
    assert_eq!(layer_indices(&types, LayerType::LinearAttention), vec![0, 2]);
    assert!(any_layer(&types, LayerType::Other));
    assert!(!any_layer(&types, LayerType::SlidingAttention));
}

#[test]
fn the_lookup_begins_with_what_is_known() {
    let mut s = SequenceState::host_only(0);
    let source = |s: &SequenceState, vision, full, reserved| {
        match lookup_entry(s, 0, vision, full, reserved) {
            LookupEntry::NeedMatch { source } => source,
            LookupEntry::Answer { .. } => panic!("chunk 0 needs a match"),
        }
    };
    assert_eq!(source(&s, false, false, false), MatchSource::Lookup);
    assert_eq!(source(&s, false, false, true), MatchSource::Reserved);
    assert_eq!(source(&s, true, false, true), MatchSource::Empty);
    assert_eq!(source(&s, false, true, true), MatchSource::Empty);
    s.collect_prompt_logprobs = Some(3);
    assert_eq!(source(&s, false, false, true), MatchSource::Empty);
    let cold = LookupEntry::Answer { kv_write_start: 0, skip: false };
    assert_eq!(lookup_entry(&s, 64, false, false, false), cold);
    s.marconi_skip_to = 48;
    let warm = LookupEntry::Answer { kv_write_start: 48, skip: true };
    assert_eq!(lookup_entry(&s, 64, false, false, false), warm);
}

#[test]
fn a_lookup_is_capped_adopted_restored_and_replayed() {
    assert!(match_is_voted(true, false));
    assert!(!match_is_voted(true, true));
    assert!(!match_is_voted(false, false));
    assert_eq!(min_word(&[9, 4, 7]), 4);
    assert_eq!(cap_match(32, 32), MatchCap::Keep);
    assert_eq!(cap_match(32, 40), MatchCap::Keep);
    assert_eq!(cap_match(32, 16), MatchCap::Shorten { tokens: 16 });
    assert_eq!(cap_match(32, 0), MatchCap::Drop);

    let mut s = SequenceState::host_only(0);
    s.tail_checkpoint_tokens = Some(9);
    s.disk_last_offloaded_per_layer = vec![1, 9];
    let mut m = hit(4, vec![11, 12]);
    m.matched_disk_block_ids = vec![5, 6];
    let tokens = [1, 2, 3, 4, 5, 6];
    adopt_match(&mut s, &tokens, 6, &m);
    assert_eq!(s.cached_prefix_tokens, 4);
    assert_eq!(s.cached_prefix_blocks, 2);
    assert_eq!(s.tail_checkpoint_tokens, None);
    assert_eq!(s.prefix_ref_tokens, vec![1, 2, 3, 4]);
    assert_eq!(s.prompt_len, 6);
    assert_eq!(s.block_table, vec![11, 12]);
    assert_eq!(s.disk_block_ids, vec![5, 6]);
    assert_eq!(s.disk_last_offloaded_per_layer, vec![2, 9]);

    assert_eq!(agreed_depth(true, true, 4, &[4, 4]), Some(4));
    assert_eq!(agreed_depth(true, true, 4, &[4, 0]), None);
    assert_eq!(agreed_depth(true, false, 4, &[4, 0]), Some(4));
    assert_eq!(agreed_depth(false, true, 0, &[]), None);

    assert_eq!(decide_restore(None, Some(3), 4), Ok(None));
    let restore = Restore { snapshot: 3, depth: 2 };
    assert_eq!(decide_restore(Some(2), Some(3), 2), Ok(Some(restore)));
    assert_eq!(decide_restore(Some(4), Some(3), 2), Err(AgreementBroken { agreed: 4 }));
    assert_eq!(decide_restore(Some(4), None, 4), Err(AgreementBroken { agreed: 4 }));

    assert_eq!(finish_lookup(&mut s, Some(restore), 4, 6, true), (2, true));
    assert_eq!(s.tail_checkpoint_tokens, Some(2));
    assert_eq!(s.marconi_skip_to, 2);
    assert_eq!(s.reused_prefix_tokens, 2);
    assert_eq!(s.marconi_exact_snap, None);
    // A retry gets the same answer, without a second match.
    let answer = LookupEntry::Answer { kv_write_start: 2, skip: true };
    assert_eq!(lookup_entry(&s, 0, true, true, true), answer);
    assert_eq!(lookup_entry(&s, 4, false, false, false), answer);
}

#[test]
fn a_finished_lookup_skips_only_what_the_state_covers() {
    let fresh = || SequenceState::host_only(0);
    let mut s = fresh();
    assert_eq!(finish_lookup(&mut s, None, 4, 6, true), (0, false));
    assert_eq!(s.reused_prefix_tokens, 0);
    assert!(s.prefix_lookup_applied && !s.prefix_lookup_skip);
    let mut s = fresh();
    assert_eq!(finish_lookup(&mut s, None, 4, 6, false), (4, true));
    assert_eq!(s.reused_prefix_tokens, 4);
    let mut s = fresh();
    let whole = Some(Restore { snapshot: 8, depth: 6 });
    assert_eq!(finish_lookup(&mut s, whole, 6, 6, true), (6, true));
    assert_eq!(s.marconi_exact_snap, Some(8));
}

#[test]
fn a_spilled_snapshot_stands_in_when_none_is_resident() {
    let mut m = hit(64, vec![]);
    assert_eq!(try_fault_in(&m, true, 0), None);
    m.ssm_snapshot_tier_key = Some(77);
    m.ssm_snapshot_tier_tokens = 48;
    assert_eq!(try_fault_in(&m, true, 0), Some((77, 48)));
    assert_eq!(try_fault_in(&m, true, 49), None);
    assert_eq!(try_fault_in(&m, false, 0), None);
    assert_eq!(eff_ssm_snapshot(&m, Some(5)), (Some(5), 48));
    assert_eq!(eff_ssm_snapshot(&m, None).0, None);
    m.ssm_snapshot = Some(1);
    m.ssm_snapshot_tokens = 64;
    assert_eq!(eff_ssm_snapshot(&m, None), (Some(1), 64));
}

#[test]
fn a_chunk_processes_what_the_cache_does_not_cover() {
    let compute = |start, count| ProcRange::Compute {
        proc_start: start,
        proc_count: count,
        effective_seq_len_start: start,
    };
    let mut s = SequenceState::host_only(0);
    s.kv_valid_tokens = 99;
    assert_eq!(proc_range(&mut s, 0, 10, false, 0, false), compute(0, 10));
    assert_eq!(s.kv_valid_tokens, 10);
    assert_eq!(proc_range(&mut s, 10, 10, true, 0, false), compute(10, 10));
    assert_eq!(s.kv_valid_tokens, 20);
    assert_eq!(s.seq_len, 0);

    let mut s = SequenceState::host_only(0);
    let part = proc_range(&mut s, 0, 10, true, 4, true);
    assert_eq!(part, compute(4, 6));
    assert_eq!(s.kv_valid_tokens, 10);
    assert_eq!(reembed_range(&part, 0, 4, true), Some((4, 6)));
    assert_eq!(reembed_range(&part, 4, 4, true), None);

    let mut s = SequenceState::host_only(0);
    assert_eq!(proc_range(&mut s, 0, 10, false, 12, true), ProcRange::EarlyReturn);
    assert_eq!(s.seq_len, 10);
    assert_eq!(s.kv_valid_tokens, 12);
    assert_eq!(reembed_range(&ProcRange::EarlyReturn, 0, 12, true), None);
    let mut s = SequenceState::host_only(0);
    assert_eq!(proc_range(&mut s, 0, 10, true, 10, true), compute(9, 1));
    assert_eq!(s.seq_len, 10);
    assert_eq!(ngram_context_start(9, 3), 6);
    assert_eq!(ngram_context_start(2, 3), 0);
}

#[test]
fn chunks_cover_the_range_in_order() {
    let list = chunks(10, 4);
    assert_eq!(
        list,
        vec![
            Chunk { offset: 0, len: 4, is_last: false },
            Chunk { offset: 4, len: 4, is_last: false },
            Chunk { offset: 8, len: 2, is_last: true },
        ]
    );
    assert!(chunks(0, 4).is_empty());
    assert_eq!(chunks(4, usize::MAX), vec![Chunk { offset: 0, len: 4, is_last: true }]);
}

#[test]
fn a_save_reclaims_at_most_once() {
    let run = |events: &[SaveEvent]| {
        let mut phase = SavePhase::First;
        for &e in events {
            phase = save_step(phase, e);
        }
        phase
    };
    let done = |snapshot| SavePhase::Done { snapshot };
    assert_eq!(run(&[SaveEvent::Saved { snapshot: 3 }]), done(Some(3)));
    assert_eq!(run(&[SaveEvent::Full]), SavePhase::Reclaim);
    assert_eq!(run(&[SaveEvent::Full, SaveEvent::Reclaimed]), SavePhase::Second);
    let retried = [SaveEvent::Full, SaveEvent::Reclaimed, SaveEvent::Saved { snapshot: 4 }];
    assert_eq!(run(&retried), done(Some(4)));
    assert_eq!(run(&[SaveEvent::Full, SaveEvent::Reclaimed, SaveEvent::Full]), done(None));
    assert_eq!(run(&[SaveEvent::Full, SaveEvent::Full]), done(None));
    assert_eq!(run(&[SaveEvent::Failed]), done(None));

    assert_eq!(insert_action(None, false, false), InsertAction::InsertPlain);
    assert_eq!(
        insert_action(Some(3), false, false),
        InsertAction::InsertWithSnapshot { snapshot: 3 }
    );
    assert_eq!(insert_action(Some(3), true, false), InsertAction::FreeSnapshot { snapshot: 3 });
    assert_eq!(insert_action(Some(3), false, true), InsertAction::FreeSnapshot { snapshot: 3 });
    assert_eq!(insert_action(None, true, false), InsertAction::Nothing);
}

#[test]
fn pads_take_encoder_rows_in_order() {
    let tokens = [5, 100, 6, 200, 100];
    assert!(tokens_have_vision_pad(&tokens, 100, 200));
    assert!(!tokens_have_vision_pad(&[5, 6], 100, 200));
    let rows = vision_rows(true, &tokens, 100, 200, 7, 10);
    assert_eq!(
        rows,
        vec![
            VisionRow { src_row: 7, dst_offset: 20 },
            VisionRow { src_row: 8, dst_offset: 60 },
            VisionRow { src_row: 9, dst_offset: 80 },
        ]
    );
    assert!(vision_rows(false, &tokens, 100, 200, 7, 10).is_empty());
}

#[test]
fn a_prompt_takes_the_route_its_buffers_allow() {
    assert!(matches!(twophase_route(0, 8, 4, false, 8), TwophaseRoute::Empty));
    assert!(matches!(twophase_route(8, 8, 4, false, 8), TwophaseRoute::TwoPhase));
    assert!(matches!(twophase_route(8, 8, 4, true, 8), TwophaseRoute::WholeChunk));
    assert!(matches!(twophase_route(8, 8, 4, false, 7), TwophaseRoute::WholeChunk));
    match twophase_route(9, 8, 4, false, 99) {
        TwophaseRoute::Chunked { chunks } => assert_eq!(chunks.len(), 3),
        _ => panic!("the prompt exceeds the arena"),
    }
}

#[test]
fn a_two_phase_prefill_resumes_where_the_state_is() {
    let restore = twophase_restore(Some(3), 32, 40, 64, true, true, true);
    assert_eq!(restore, Some(Restore { snapshot: 3, depth: 32 }));
    assert_eq!(twophase_restore(None, 32, 40, 64, true, false, false), None);
    assert_eq!(twophase_restore(Some(3), 0, 40, 64, true, false, false), None);
    assert_eq!(twophase_restore(Some(3), 32, 65, 64, true, false, false), None);
    assert_eq!(twophase_restore(Some(3), 32, 40, 64, false, false, false), None);
    assert_eq!(twophase_restore(Some(3), 32, 40, 64, true, true, false), None);

    let mut s = SequenceState::host_only(0);
    let mut m = hit(40, vec![1, 2, 3]);
    m.matched_disk_block_ids = vec![8];
    let prompt: Vec<u32> = (100..164).collect();
    twophase_adopt(&mut s, &prompt, &m);
    assert_eq!(s.prefix_ref_tokens, prompt[..40]);
    assert_eq!((s.cached_prefix_tokens, s.cached_prefix_blocks, s.prompt_len), (40, 3, 64));
    assert_eq!(s.block_table, vec![1, 2, 3]);
    assert_eq!(s.disk_block_ids, vec![8]);
    assert_eq!(twophase_resume(&mut s, restore, 40, 64), (32, true));
    assert_eq!((s.marconi_skip_to, s.reused_prefix_tokens), (32, 32));
    assert_eq!(twophase_resume(&mut s, None, 40, 64), (0, false));
    assert_eq!(s.reused_prefix_tokens, 0);
    let whole = Some(Restore { snapshot: 3, depth: 64 });
    assert_eq!(twophase_resume(&mut s, whole, 64, 64), (64, true));
    assert_eq!(twophase_range(64, 32, true), (32, 32));
    assert_eq!(twophase_range(64, 32, false), (0, 64));
    assert_eq!(last_block(64, 16), 3);
    assert_eq!(last_block(65, 16), 4);
    // Positions 32..40 replay KV of shared blocks.
    assert_eq!(layer_kv_write_start(&s, true, 32, 32, 32), 8);
    assert_eq!(layer_kv_write_start(&s, true, 32, 4, 32), 4);
    assert_eq!(layer_kv_write_start(&s, true, 48, 4, 32), 0);
    assert_eq!(layer_kv_write_start(&s, false, 32, 32, 7), 7);
}

#[test]
fn two_phase_metadata_and_steps() {
    let l = twophase_layout(0, 5, 3);
    assert_eq!((l.meta_offset, l.slot_offset, l.needs_paged), (120, 24, false));
    assert!(twophase_layout(1, 5, 3).needs_paged);
    let mut s = SequenceState::host_only(0);
    s.block_table = vec![4];
    let m = twophase_meta(&s, 0, 2, 2, 9);
    assert_eq!(m.positions, vec![0, 1]);
    assert_eq!(m.slots, Some(vec![8, 9]));
    assert!(twophase_meta(&s, 1, 1, 2, 9).slots.is_none());
    let l = twophase_layout(0, 2, 3);
    assert_eq!(check_twophase_pack(&m, 2, &l, 24), Ok(()));
    let no_room = |field| Err(PackError::NoRoom { field });
    assert_eq!(check_twophase_pack(&m, 2, &l, 23), no_room(MetaField::Slots));
    assert_eq!(check_twophase_pack(&m, 2, &l, 7), no_room(MetaField::Positions));
    let short = Err(PackError::Short { field: MetaField::Positions });
    assert_eq!(check_twophase_pack(&m, 3, &l, 99), short);

    let span = ProcSpan { start: 10, count: 5, kv_write_start: 2 };
    let steps = twophase_steps(&vec![true, false], span, 3, 100);
    let project = |chunk_start, chunk_len, offset, pos| TwophaseStep::Project {
        layer: 0,
        chunk_start,
        chunk_len,
        offset,
        pos,
        kv_write_start: 2,
    };
    assert_eq!(
        steps,
        vec![
            project(0, 3, 0, 10),
            project(3, 2, 600, 13),
            TwophaseStep::Recur { layer: 0, rows: 5 },
            TwophaseStep::Post { layer: 0, chunk_start: 0, chunk_len: 3, offset: 0 },
            TwophaseStep::Post { layer: 0, chunk_start: 3, chunk_len: 2, offset: 600 },
            TwophaseStep::Attention { layer: 1, start: 10, count: 5, kv_write_start: 2 },
        ]
    );
    let mut s = SequenceState::host_only(0);
    s.last_decode_ckpt_block = 7;
    commit_prompt(&mut s, &[1, 2, 3], 2);
    assert_eq!((s.tokens.clone(), s.seq_len, s.last_decode_ckpt_block), (vec![1, 2, 3], 3, 1));
    let mut s = SequenceState::host_only(0);
    commit_prompt(&mut s, &[1, 2, 3, 4, 5], 2);
    assert_eq!((s.tokens.len(), s.seq_len, s.last_decode_ckpt_block), (5, 5, 2));
}

#[test]
fn a_single_token_pass_decodes() {
    let mut s = SequenceState::host_only(0);
    s.cached_prefix_tokens = 40;
    assert_eq!(
        prefill_steps(&s, 1, 1, 63, 63, true),
        vec![
            PrefillStep::Decode { layer: 0, pos: 63 },
            PrefillStep::CaptureLayer { layer: 0, base: 63, rows: 1 },
            PrefillStep::CaptureDrafter { base: 63, rows: 1 },
        ]
    );
    let steps = prefill_steps(&s, 2, 32, 32, 32, true);
    let first = PrefillStep::Prefill { layer: 0, start: 32, count: 32, kv_write_start: 8 };
    assert_eq!(steps[0], first);
    assert_eq!(steps.len(), 5);
    // The first token of a prompt is a prefill.
    assert!(matches!(prefill_steps(&s, 1, 1, 0, 0, false)[0], PrefillStep::Prefill { .. }));
    assert_eq!(stream_offsets(true, 40), (40, 80));
    assert_eq!(stream_offsets(false, 40), (0, 0));
}

#[test]
fn metadata_fields_lie_one_after_another() {
    assert_eq!(meta_offset(5, 3), 120);
    let l = meta_layout(5, true, 0);
    assert_eq!((l.slot_offset, l.pos_stream_bytes, l.needs_paged), (64, 20, false));
    let l = meta_layout(5, false, 8);
    assert_eq!((l.slot_offset, l.needs_paged), (24, true));
    assert_eq!(packer_capacity(10, 20), 10);
    assert_eq!(packer_capacity(30, 20), 20);
    assert_eq!(grid_hi(GridWindow { base: 1, owned: 2 }, 9), 3);
    assert_eq!(grid_hi(GridWindow { base: 1, owned: 0 }, 9), 9);
    assert_eq!(grid_hi(GridWindow { base: 8, owned: 5 }, 9), 9);
    assert_eq!(grid_hi(GridWindow { base: usize::MAX, owned: 5 }, 9), 9);
}

#[test]
fn position_streams_follow_the_grids() {
    let window = GridWindow { base: 0, owned: 1 };
    let s = position_streams(&[1, 2], 7, 2, false, &[(1, 1, 1)], window, 100, 200);
    assert_eq!(s.t, vec![7, 8]);
    assert!(s.h.is_empty() && s.w.is_empty());
    // Text keeps the ramp on all three axes.
    let s = position_streams(&[1, 2], 7, 2, true, &[(1, 1, 1)], window, 100, 200);
    assert_eq!((s.t, s.h, s.w), (vec![7, 8], vec![7, 8], vec![7, 8]));
    let chunk = [1, 100, 100, 2];
    let s = position_streams(&chunk, 3, 4, true, &[(1, 1, 2)], window, 100, 200);
    assert_eq!(s.t, vec![3, 4, 4, 6]);
    assert_eq!(s.h, vec![3, 4, 4, 6]);
    assert_eq!(s.w, vec![3, 4, 5, 6]);
    // A window past the list owns nothing, and its pads are text.
    let past = GridWindow { base: 5, owned: 2 };
    let s = position_streams(&chunk, 3, 4, true, &[(1, 1, 2)], past, 100, 200);
    assert_eq!((s.t, s.h, s.w), (vec![3, 4, 5, 6], vec![3, 4, 5, 6], vec![3, 4, 5, 6]));
    let fit = |start: usize, mrope: bool| {
        positions_fit(&chunk, start, mrope, &[(1, 1, 2)], window, 100, 200)
    };
    let top = u32::MAX as usize;
    assert!(fit(3, true));
    assert!(fit(top - 4, true));
    assert!(!fit(top - 3, true));
    assert!(fit(top - 3, false));
    assert!(positions_fit(&[1, 2], top, true, &[(1, 1, 2)], window, 100, 200));
}

#[test]
fn metadata_that_does_not_pack_names_its_field() {
    let streams = |t: usize, h: usize, w: usize| PositionStreams {
        t: vec![0; t],
        h: vec![0; h],
        w: vec![0; w],
    };
    let l = meta_layout(2, true, 0);
    let slots = |n: usize| Some(vec![0i64; n]);
    let need = l.slot_offset + 16;
    assert_eq!(check_pack(&streams(2, 2, 2), &slots(2), 2, &l, need), Ok(()));
    let short = |field| Err(PackError::Short { field });
    let no_room = |field| Err(PackError::NoRoom { field });
    assert_eq!(check_pack(&streams(1, 2, 2), &None, 2, &l, need), short(MetaField::Positions));
    assert_eq!(check_pack(&streams(2, 1, 2), &None, 2, &l, need), short(MetaField::PositionsH));
    assert_eq!(check_pack(&streams(2, 2, 1), &None, 2, &l, need), short(MetaField::PositionsW));
    assert_eq!(check_pack(&streams(2, 2, 2), &slots(1), 2, &l, need), short(MetaField::Slots));
    let full = streams(2, 2, 2);
    assert_eq!(check_pack(&full, &None, 2, &l, 7), no_room(MetaField::Positions));
    assert_eq!(check_pack(&full, &None, 2, &l, 15), no_room(MetaField::PositionsH));
    assert_eq!(check_pack(&full, &None, 2, &l, 23), no_room(MetaField::PositionsW));
    assert_eq!(check_pack(&full, &slots(2), 2, &l, need - 1), no_room(MetaField::Slots));
    let one = meta_layout(2, false, 0);
    assert_eq!(check_pack(&streams(2, 0, 0), &None, 2, &one, 8), Ok(()));
}

#[test]
fn the_block_table_is_uploaded_once() {
    let mut s = SequenceState::host_only(0);
    s.block_table = vec![1, 2, 3];
    assert_eq!(chunk_slots(&s, 2, 2, false, 2, 9), Some(vec![4, 5]));
    assert_eq!(chunk_slots(&s, 2, 2, true, 2, 9), None);
    assert_eq!(page_upload(&s, 1), Some(1));
    mark_uploaded(&mut s);
    assert!(s.chunked_prefill_meta.is_none());
    s.chunked_prefill_meta = Some(ChunkedPrefillPageMetadata {
        block_table: DevicePtr(7),
        seq_len: DevicePtr(8),
        uploaded_blocks: 1,
        block_capacity: 16,
    });
    mark_uploaded(&mut s);
    let m = s.chunked_prefill_meta.as_ref().unwrap();
    assert_eq!((m.block_table, m.uploaded_blocks), (DevicePtr(7), 3));
    assert_eq!(page_upload(&s, 3), None);
    // A slid window is not uploaded.
    s.disk_block_ids = vec![1, 2, 3, 4];
    assert_eq!(page_upload(&s, 1), None);
}

#[test]
fn a_reservation_is_taken_or_declined_as_a_whole() {
    assert_eq!(reserve_entry(false, None, true), ReserveEntry::NotNeeded);
    assert_eq!(reserve_entry(true, None, false), ReserveEntry::Declined);
    assert_eq!(reserve_entry(true, Some(16), true), ReserveEntry::NotNeeded);
    assert_eq!(reserve_entry(true, Some(0), true), ReserveEntry::Declined);
    assert_eq!(reserve_entry(true, Some(0), false), ReserveEntry::Lookup);
    assert!(stream_declines(true, None));
    assert!(stream_declines(false, Some(0)));
    assert!(!stream_declines(false, None));
    let warm = [hit(16, vec![1]), hit(16, vec![2])];
    assert!(reserve_verdict(&warm, false, 32));
    assert!(!reserve_verdict(&warm, true, 32));
    assert!(!reserve_verdict(&warm, false, 16));
    assert!(!reserve_verdict(&[], false, 16));
    let mixed = [hit(0, vec![]), hit(16, vec![2]), hit(0, vec![]), hit(8, vec![3])];
    assert!(!reserve_verdict(&mixed, false, 32));
    assert_eq!(
        release_reservations(&mixed),
        vec![
            MatchRelease { stream: 1, matched_tokens: 16 },
            MatchRelease { stream: 3, matched_tokens: 8 },
        ]
    );
}
